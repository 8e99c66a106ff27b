//! What the sealed segments of a channel hold.

use vstd::prelude::*;

use crate::cbor::{self, Cur, Decoder, Encoder, Tok};
use crate::channel::state;
use crate::error::Error;
use crate::hash::{self, same_digest, Digest32};
use crate::identity::CompositePublicKey;
use crate::table::{self, Key, Table};

verus! {

/// Segment of the manifest in the key material.
pub const SEG_MANIFEST: u64 = 0;

/// Segment of this identity's sender chain in the key material.
pub const SEG_SENDER: u64 = 1;

/// Segment of the admitted authors in the key material.
pub const SEG_AUTHORS: u64 = 2;

/// Segment of the sender keys that other members have released to this identity.
pub const SEG_RECEIVERS: u64 = 3;

/// Segment of the anchors this channel is published to.
pub const SEG_ANCHORS: u64 = 4;

/// Segment of the services this node offers in this channel.
pub const SEG_SERVICES: u64 = 5;

/// Segment of the retained origins of this identity's sender-key generations.
pub const SEG_ORIGINS: u64 = 6;

/// Segment of the sender-key delivery ledger.
pub const SEG_DELIVERED: u64 = 7;

/// Segment of this node's own admission to the channel.
pub const SEG_ADMISSION: u64 = 8;

/// Version of the delivery ledger.
pub const DELIVERED_VERSION: u64 = 1;

/// Version of the services segment.
pub const SERVICES_VERSION: u64 = 1;

/// The most services one channel may offer.
pub const MAX_SERVICES: usize = 64;

/// The longest service tag.
pub const MAX_SERVICE_TAG_LEN: usize = 64;

/// Version of the manifest.
pub const MANIFEST_VERSION: u64 = 1;

/// Version of the rendering cache whose timestamps are milliseconds.
pub const CACHE_VERSION: u64 = 2;

/// Version of the rendering cache whose timestamps are seconds; still read.
pub const CACHE_VERSION_SECONDS: u64 = 1;

/// Version of the authors segment.
pub const AUTHORS_VERSION: u64 = 1;

/// Version of the receiver-chains segment.
pub const RECEIVERS_VERSION: u64 = 1;

/// Cap on retained receiver chains per channel.
pub const MAX_RECEIVER_CHAINS: usize = 4096;

/// Cap on admitted authors per channel.
pub const MAX_AUTHORS: usize = 1024;

/// Cap on a local channel name.
pub const MAX_LOCAL_NAME_LEN: usize = 128;

/// A rendered message in the timeline.
#[derive(Debug, PartialEq, Eq)]
pub struct Rendered {
    /// The entry this rendering belongs to.
    pub entry_hash: Digest32,
    /// The author's fingerprint.
    pub author: Digest32,
    /// The author's recorded send time, milliseconds since the Unix epoch.
    pub created_millis: u64,
    /// The text.
    pub text: String,
}

impl Clone for Rendered {
    fn clone(&self) -> (r: Rendered)
        ensures
            r == *self,
    {
        Rendered {
            entry_hash: self.entry_hash,
            author: self.author,
            created_millis: self.created_millis,
            text: self.text.clone(),
        }
    }
}

/// An error of a segment that is not as it should be.
pub open spec fn at_rest(what: &'static str) -> Error {
    Error::MalformedAtRest(what)
}

// ---- the rendering cache -----------------------------------------------------

impl Rendered {
    /// The items of a cache row of version `version` with timestamp `stamp`.
    pub open spec fn row_toks(&self, version: u64, stamp: u64) -> Seq<Tok> {
        cbor::items()
            .push(Tok::Array(5))
            .push(Tok::Uint(version))
            .push(Tok::Bytes(self.entry_hash@))
            .push(Tok::Bytes(self.author@))
            .push(Tok::Uint(stamp))
            .push(Tok::Text(self.text@))
    }

    /// The items a rendering is cached as.
    pub open spec fn toks(&self) -> Seq<Tok> {
        self.row_toks(CACHE_VERSION, self.created_millis)
    }
}

/// A cache row.
pub fn cache_bytes(r: &Rendered) -> (b: Vec<u8>)
    ensures
        b@ == cbor::enc(r.toks()),
{
    let mut e = Encoder::new();
    e.array(5);
    e.uint(CACHE_VERSION);
    e.digest(&r.entry_hash);
    e.digest(&r.author);
    e.uint(r.created_millis);
    e.text(&r.text);
    e.finish()
}

/// What is wrong with `b` as a cache row, or `None` where it is one.
pub open spec fn cache_fault(b: Seq<u8>) -> Option<Error> {
    let c0 = Cur::at(b);
    let c1 = c0.array(cbor::raw()).check(c0.peek_array() == 5, at_rest("plaintext cache arity"));
    let c2 = c1.uint(cbor::raw()).check(
        c1.peek_uint() == CACHE_VERSION || c1.peek_uint() == CACHE_VERSION_SECONDS,
        at_rest("plaintext cache version"),
    );
    c2.digest(cbor::raw(), at_rest("plaintext cache entry hash")).digest(
        cbor::raw(),
        at_rest("plaintext cache author"),
    ).uint(cbor::raw()).text(cbor::raw()).end(cbor::raw()).bad
}

/// `n` seconds in milliseconds, or the largest number where that does not fit.
pub open spec fn millis_of_secs(n: u64) -> u64 {
    if n * 1000 > u64::MAX {
        u64::MAX
    } else {
        (n * 1000) as u64
    }
}

/// Whether `r` is what is read from a cache row with items `ts`: a row of either
/// version, its timestamp brought to milliseconds.
pub open spec fn cache_read(r: Rendered, ts: Seq<Tok>) -> bool {
    ||| ts == r.toks()
    ||| exists|secs: u64|
        r.created_millis == #[trigger] millis_of_secs(secs) && ts == r.row_toks(
            CACHE_VERSION_SECONDS,
            secs,
        )
}

/// Reads a cache row.
pub fn parse_cache(b: &[u8]) -> (r: Result<Rendered, Error>)
    ensures
        match r {
            Ok(row) => {
                &&& cache_fault(b@) is None
                &&& cache_read(row, cbor::toks_of(b@))
                &&& cbor::enc(cbor::toks_of(b@)) == b@
            },
            Err(e) => cache_fault(b@) == Some(e),
        },
{
    let mut d = Decoder::new(b);
    if d.array(Error::Cbor("cbor"))? != 5 {
        return Err(Error::MalformedAtRest("plaintext cache arity"));
    }
    let version: u64 = d.uint(Error::Cbor("cbor"))?;
    if version != CACHE_VERSION && version != CACHE_VERSION_SECONDS {
        return Err(Error::MalformedAtRest("plaintext cache version"));
    }
    let entry_hash: Digest32 = d.digest(
        Error::Cbor("cbor"),
        Error::MalformedAtRest("plaintext cache entry hash"),
    )?;
    let author: Digest32 = d.digest(
        Error::Cbor("cbor"),
        Error::MalformedAtRest("plaintext cache author"),
    )?;
    let stamp: u64 = d.uint(Error::Cbor("cbor"))?;
    let text: String = d.text(Error::Cbor("cbor"))?;
    d.finish(Error::Cbor("cbor"))?;
    let created_millis: u64 = if version == CACHE_VERSION {
        stamp
    } else {
        match stamp.checked_mul(1000) {
            Some(m) => m,
            None => u64::MAX,
        }
    };
    let row: Rendered = Rendered { entry_hash, author, created_millis, text };
    proof {
        if version == CACHE_VERSION_SECONDS {
            assert(row.created_millis == millis_of_secs(stamp));
            assert(d.seen() == row.row_toks(CACHE_VERSION_SECONDS, stamp));
        }
    }
    Ok(row)
}

/// A cached rendering is read back as it was.
pub proof fn law_cache_read_back(r: Rendered)
    requires
        cbor::all_encodable(r.toks()),
    ensures
        cache_fault(cbor::enc(r.toks())) is None,
        cbor::toks_of(cbor::enc(r.toks())) == r.toks(),
        cache_read(r, r.toks()),
        forall|s: Rendered| #[trigger]
            cache_read(s, r.toks()) ==> s.entry_hash@ == r.entry_hash@ && s.author@ == r.author@
                && s.created_millis == r.created_millis && s.text@ == r.text@,
{
    cbor::law_items_read_back(r.toks());
    assert forall|s: Rendered| #[trigger] cache_read(s, r.toks()) implies s.entry_hash@
        == r.entry_hash@ && s.author@ == r.author@ && s.created_millis == r.created_millis
        && s.text@ == r.text@ by {
        let ts = r.toks();
        assert(ts[1] == Tok::Uint(CACHE_VERSION));
        assert(ts[2] == Tok::Bytes(r.entry_hash@));
        assert(ts[3] == Tok::Bytes(r.author@));
        assert(ts[4] == Tok::Uint(r.created_millis));
        assert(ts[5] == Tok::Text(r.text@));
        if ts == s.toks() {
            let us = s.toks();
            assert(us[2] == Tok::Bytes(s.entry_hash@));
            assert(us[3] == Tok::Bytes(s.author@));
            assert(us[4] == Tok::Uint(s.created_millis));
            assert(us[5] == Tok::Text(s.text@));
        } else {
            let secs = choose|secs: u64|
                s.created_millis == #[trigger] millis_of_secs(secs) && ts == s.row_toks(
                    CACHE_VERSION_SECONDS,
                    secs,
                );
            assert(s.row_toks(CACHE_VERSION_SECONDS, secs)[1] == Tok::Uint(CACHE_VERSION_SECONDS));
        }
    }
}

// ---- the manifest ------------------------------------------------------------

/// The items of a manifest.
pub open spec fn manifest_toks(
    genesis_wire: Seq<u8>,
    local_name: Seq<char>,
    created: u64,
    epoch: u64,
) -> Seq<Tok> {
    cbor::items()
        .push(Tok::Array(5))
        .push(Tok::Uint(MANIFEST_VERSION))
        .push(Tok::Bytes(genesis_wire))
        .push(Tok::Text(local_name))
        .push(Tok::Uint(created))
        .push(Tok::Uint(epoch))
}

/// The manifest segment.
pub fn manifest_bytes(genesis_wire: &[u8], local_name: &str, created: u64, epoch: u64) -> (b: Vec<
    u8,
>)
    ensures
        b@ == cbor::enc(manifest_toks(genesis_wire@, local_name@, created, epoch)),
{
    let mut e = Encoder::new();
    e.array(5);
    e.uint(MANIFEST_VERSION);
    e.bytes(genesis_wire);
    e.text(local_name);
    e.uint(created);
    e.uint(epoch);
    e.finish()
}

/// The manifest up to and with the genesis.
pub open spec fn manifest_front(b: Seq<u8>) -> Cur {
    let c0 = Cur::at(b);
    let c1 = c0.array(cbor::raw()).check(c0.peek_array() == 5, at_rest("channel manifest arity"));
    c1.uint(cbor::raw()).check(
        c1.peek_uint() == MANIFEST_VERSION,
        at_rest("channel manifest version"),
    ).bytes(cbor::raw())
}

/// What is wrong with `b` as a manifest, behind its genesis or before it.
pub open spec fn manifest_fault(b: Seq<u8>) -> Option<Error> {
    let c = manifest_front(b);
    c.text(cbor::raw()).check(
        vstd::utf8::encode_utf8(c.peek_text()).len() <= MAX_LOCAL_NAME_LEN,
        Error::SizeLimitExceeded("channel local name"),
    ).uint(cbor::raw()).uint(cbor::raw()).end(cbor::raw()).bad
}

fn manifest_start<'a>(d: &mut Decoder<'a>) -> (r: Result<&'a [u8], Error>)
    requires
        old(d).wf(),
        old(d).cur() == Cur::at(old(d).buffer()),
        old(d).seen() == cbor::items(),
    ensures
        final(d).wf(),
        final(d).buffer() == old(d).buffer(),
        match r {
            Ok(w) => {
                &&& final(d).cur() == manifest_front(old(d).buffer())
                &&& final(d).seen() == cbor::items().push(Tok::Array(5)).push(
                    Tok::Uint(MANIFEST_VERSION),
                ).push(Tok::Bytes(w@))
                &&& cbor::toks_of(old(d).buffer()).len() > 2 && cbor::toks_of(old(d).buffer())[2]
                    == Tok::Bytes(w@)
            },
            Err(e) => manifest_front(old(d).buffer()).bad == Some(e),
        },
{
    if d.array(Error::Cbor("cbor"))? != 5 {
        return Err(Error::MalformedAtRest("channel manifest arity"));
    }
    if d.uint(Error::Cbor("cbor"))? != MANIFEST_VERSION {
        return Err(Error::MalformedAtRest("channel manifest version"));
    }
    d.bytes(Error::Cbor("cbor"))
}

/// The genesis that a manifest holds, in wire form.
pub fn manifest_genesis(b: &[u8]) -> (r: Result<Vec<u8>, Error>)
    ensures
        match r {
            Ok(w) => {
                &&& manifest_front(b@).bad is None
                &&& cbor::toks_of(b@).len() > 2
                &&& cbor::toks_of(b@)[2] == Tok::Bytes(w@)
            },
            Err(e) => manifest_front(b@).bad == Some(e),
        },
{
    let mut d = Decoder::new(b);
    let w: &[u8] = manifest_start(&mut d)?;
    Ok(vstd::slice::slice_to_vec(w))
}

/// What a manifest says beside the genesis.
#[derive(Debug, PartialEq, Eq)]
pub struct Manifest {
    /// The genesis in wire form.
    pub genesis_wire: Vec<u8>,
    /// This device's name for the channel.
    pub local_name: String,
    /// When the channel was created or joined here.
    pub created: u64,
    /// The epoch.
    pub epoch: u64,
}

/// Reads a manifest whose genesis has been found good.
pub fn parse_manifest(b: &[u8]) -> (r: Result<Manifest, Error>)
    ensures
        match r {
            Ok(m) => {
                &&& manifest_fault(b@) is None
                &&& b@ == cbor::enc(
                    manifest_toks(m.genesis_wire@, m.local_name@, m.created, m.epoch),
                )
                &&& cbor::toks_of(b@) == manifest_toks(
                    m.genesis_wire@,
                    m.local_name@,
                    m.created,
                    m.epoch,
                )
                &&& vstd::utf8::encode_utf8(m.local_name@).len() <= MAX_LOCAL_NAME_LEN
            },
            Err(e) => manifest_fault(b@) == Some(e),
        },
{
    let mut d = Decoder::new(b);
    let w: &[u8] = manifest_start(&mut d)?;
    let local_name: String = d.text(Error::Cbor("cbor"))?;
    if local_name.as_str().as_bytes().len() > MAX_LOCAL_NAME_LEN {
        return Err(Error::SizeLimitExceeded("channel local name"));
    }
    let created: u64 = d.uint(Error::Cbor("cbor"))?;
    let epoch: u64 = d.uint(Error::Cbor("cbor"))?;
    d.finish(Error::Cbor("cbor"))?;
    Ok(Manifest { genesis_wire: vstd::slice::slice_to_vec(w), local_name, created, epoch })
}

/// A manifest is read back as it was written.
pub proof fn law_manifest_read_back(
    genesis_wire: Seq<u8>,
    local_name: Seq<char>,
    created: u64,
    epoch: u64,
)
    requires
        genesis_wire.len() <= u64::MAX,
        vstd::utf8::encode_utf8(local_name).len() <= MAX_LOCAL_NAME_LEN,
    ensures
        manifest_fault(cbor::enc(manifest_toks(genesis_wire, local_name, created, epoch))) is None,
        cbor::toks_of(cbor::enc(manifest_toks(genesis_wire, local_name, created, epoch)))
            == manifest_toks(genesis_wire, local_name, created, epoch),
{
    let ts = manifest_toks(genesis_wire, local_name, created, epoch);
    assert(cbor::all_encodable(ts));
    cbor::law_items_read_back(ts);
}

// ---- the delivery ledger -----------------------------------------------------

/// The items of a ledger row.
pub open spec fn delivered_item() -> spec_fn((Digest32, u64)) -> Seq<Tok> {
    |r: (Digest32, u64)|
        cbor::items().push(Tok::Array(2)).push(Tok::Bytes(r.0@)).push(Tok::Uint(r.1))
}

/// Reads a ledger row.
pub open spec fn delivered_step() -> spec_fn(Cur) -> Cur {
    |c: Cur|
        c.array(cbor::raw()).check(c.peek_array() == 2, at_rest("delivery ledger row arity"))
            .digest(cbor::raw(), at_rest("delivery ledger target")).uint(cbor::raw())
}

/// The items in front of the rows of a versioned segment.
pub open spec fn segment_head(version: u64, n: nat) -> Seq<Tok> {
    cbor::items().push(Tok::Array(2)).push(Tok::Uint(version)).push(Tok::Array(n as u64))
}

/// The items of a ledger with these rows.
pub open spec fn delivered_toks(rows: Seq<(Digest32, u64)>) -> Seq<Tok> {
    cbor::put_all(segment_head(DELIVERED_VERSION, rows.len()), rows, delivered_item())
}

/// The ledger segment: targets in ascending order, each with the highest generation
/// delivered to it.
pub fn delivered_bytes(delivered: &Table<Digest32, u64>) -> (b: Vec<u8>)
    ensures
        b@ == cbor::enc(delivered_toks(delivered.rows())),
{
    let mut e = Encoder::new();
    e.array(2);
    e.uint(DELIVERED_VERSION);
    e.array(delivered.len() as u64);
    let ghost base = e.toks();
    let ghost rows = delivered.rows();
    let mut i: usize = 0;
    assert(rows.take(0) =~= Seq::empty());
    while i < delivered.len()
        invariant
            i <= rows.len(),
            rows == delivered.rows(),
            e.wf(),
            e.toks() == cbor::put_all(base, rows.take(i as int), delivered_item()),
        decreases rows.len() - i,
    {
        let r: &(Digest32, u64) = delivered.row(i);
        let ghost before = e.toks();
        e.array(2);
        e.digest(&r.0);
        e.uint(r.1);
        proof {
            assert(e.toks() =~= before + delivered_item()(*r));
            cbor::lemma_put_all_push(base, rows.take(i as int), *r, delivered_item());
            assert(rows.take(i as int).push(*r) =~= rows.take(i + 1));
        }
        i = i + 1;
    }
    assert(rows.take(rows.len() as int) =~= rows);
    e.finish()
}

/// The front of a versioned segment: its arity, its version and how many rows follow.
pub open spec fn segment_front(
    b: Seq<u8>,
    arity: Error,
    version: u64,
    versioned: Error,
    max: nat,
    size: Error,
) -> Cur {
    let c0 = Cur::at(b);
    let c1 = c0.array(cbor::raw()).check(c0.peek_array() == 2, arity);
    let c2 = c1.uint(cbor::raw()).check(c1.peek_uint() == version, versioned);
    c2.array(cbor::raw()).check(c2.peek_array() <= max, size)
}

/// How many rows a versioned segment announces.
pub open spec fn segment_rows(b: Seq<u8>) -> nat {
    cbor::toks_of(b)[2]->Array_0 as nat
}

fn read_front(
    d: &mut Decoder<'_>,
    arity: Error,
    version: u64,
    versioned: Error,
    max: usize,
    size: Error,
) -> (r: Result<u64, Error>)
    requires
        old(d).wf(),
        old(d).cur() == Cur::at(old(d).buffer()),
        old(d).seen() == cbor::items(),
    ensures
        final(d).wf(),
        final(d).buffer() == old(d).buffer(),
        match r {
            Ok(n) => {
                &&& n <= max
                &&& n == segment_rows(old(d).buffer())
                &&& final(d).cur() == segment_front(
                    old(d).buffer(),
                    arity,
                    version,
                    versioned,
                    max as nat,
                    size,
                )
                &&& final(d).seen() == segment_head(version, n as nat)
            },
            Err(e) => segment_front(old(d).buffer(), arity, version, versioned, max as nat, size).bad
                == Some(e),
        },
{
    if d.array(Error::Cbor("cbor"))? != 2 {
        return Err(arity);
    }
    if d.uint(Error::Cbor("cbor"))? != version {
        return Err(versioned);
    }
    let n: u64 = d.array(Error::Cbor("cbor"))?;
    if n > max as u64 {
        return Err(size);
    }
    Ok(n)
}

/// The front of a ledger segment.
pub open spec fn delivered_front(b: Seq<u8>) -> Cur {
    segment_front(
        b,
        at_rest("delivery ledger arity"),
        DELIVERED_VERSION,
        at_rest("delivery ledger version"),
        MAX_AUTHORS as nat,
        Error::SizeLimitExceeded("delivery ledger rows"),
    )
}

/// What is wrong with `b` as a ledger, or `None` where it is one.
pub open spec fn delivered_fault(b: Seq<u8>) -> Option<Error> {
    cbor::many(delivered_front(b), segment_rows(b), delivered_step()).end(cbor::raw()).bad
}

/// Whether `map` is what is read from a ledger with items `ts`: a later row for a
/// target takes the place of an earlier one.
pub open spec fn delivered_read(map: Map<Seq<u8>, u64>, ts: Seq<Tok>) -> bool {
    exists|rows: Seq<(Digest32, u64)>|
        ts == #[trigger] delivered_toks(rows) && map == table::map_of(rows)
}

fn read_delivered_row(d: &mut Decoder<'_>) -> (r: Result<(Digest32, u64), Error>)
    requires
        old(d).wf(),
    ensures
        final(d).wf(),
        final(d).buffer() == old(d).buffer(),
        match r {
            Ok(x) => {
                &&& final(d).cur() == delivered_step()(old(d).cur())
                &&& final(d).seen() == old(d).seen() + delivered_item()(x)
            },
            Err(e) => delivered_step()(old(d).cur()).bad == Some(e),
        },
{
    let ghost before = d.seen();
    if d.array(Error::Cbor("cbor"))? != 2 {
        return Err(Error::MalformedAtRest("delivery ledger row arity"));
    }
    let target: Digest32 = d.digest(
        Error::Cbor("cbor"),
        Error::MalformedAtRest("delivery ledger target"),
    )?;
    let chain_id: u64 = d.uint(Error::Cbor("cbor"))?;
    assert(d.seen() =~= before + delivered_item()((target, chain_id)));
    Ok((target, chain_id))
}

/// Reads a ledger segment.
pub fn parse_delivered(b: &[u8]) -> (r: Result<Table<Digest32, u64>, Error>)
    ensures
        match r {
            Ok(t) => {
                &&& t.wf()
                &&& delivered_fault(b@) is None
                &&& delivered_read(t.map(), cbor::toks_of(b@))
                &&& cbor::enc(cbor::toks_of(b@)) == b@
                &&& t.rows().len() <= MAX_AUTHORS
            },
            Err(e) => delivered_fault(b@) == Some(e),
        },
{
    let mut d = Decoder::new(b);
    let n: u64 = match read_front(
        &mut d,
        Error::MalformedAtRest("delivery ledger arity"),
        DELIVERED_VERSION,
        Error::MalformedAtRest("delivery ledger version"),
        MAX_AUTHORS,
        Error::SizeLimitExceeded("delivery ledger rows"),
    ) {
        Ok(n) => n,
        Err(e) => {
            proof {
                cbor::lemma_many_stuck(
                    delivered_front(b@),
                    0,
                    segment_rows(b@),
                    delivered_step(),
                );
            }
            return Err(e);
        },
    };
    let ghost start = d.cur();
    let ghost base = d.seen();
    let ghost mut rows: Seq<(Digest32, u64)> = Seq::empty();
    let mut t: Table<Digest32, u64> = Table::new();
    let mut k: u64 = 0;
    while k < n
        invariant
            k <= n,
            n == segment_rows(b@),
            n <= MAX_AUTHORS,
            start == delivered_front(b@),
            d.wf(),
            d.buffer() == b@,
            d.cur() == cbor::many(start, k as nat, delivered_step()),
            rows.len() == k,
            d.seen() == cbor::put_all(base, rows, delivered_item()),
            t.wf(),
            t.map() == table::map_of(rows),
            t.rows().len() <= k,
        decreases n - k,
    {
        match read_delivered_row(&mut d) {
            Ok(x) => {
                proof {
                    cbor::lemma_put_all_push(base, rows, x, delivered_item());
                    assert(rows.push(x).drop_last() =~= rows);
                    rows = rows.push(x);
                }
                t.insert(x.0, x.1);
            },
            Err(e) => {
                proof {
                    cbor::lemma_many_stuck(start, (k + 1) as nat, n as nat, delivered_step());
                }
                return Err(e);
            },
        }
        k = k + 1;
    }
    d.finish(Error::Cbor("cbor"))?;
    assert(d.seen() == delivered_toks(rows));
    Ok(t)
}

proof fn lemma_delivered_reads(xs: Seq<(Digest32, u64)>)
    ensures
        cbor::reads_back(xs, delivered_item(), delivered_step()),
{
    assert forall|i: int, c: Cur, tail: Seq<Tok>|
        0 <= i < xs.len() && c.bad is None && c.toks == #[trigger] (delivered_item()(
            #[trigger] xs[i],
        ) + tail) implies #[trigger] delivered_step()(c) == (Cur { toks: tail, ..c }) by {
        assert(delivered_step()(c).toks =~= tail);
    }
}

/// A segment whose front is as it should be, with rows that are read back, reads
/// without a fault.
proof fn lemma_segment_reads<T>(
    b: Seq<u8>,
    version: u64,
    arity: Error,
    versioned: Error,
    max: nat,
    size: Error,
    xs: Seq<T>,
    item: spec_fn(T) -> Seq<Tok>,
    step: spec_fn(Cur) -> Cur,
)
    requires
        xs.len() <= max <= u64::MAX,
        cbor::toks_of(b) == cbor::put_all(segment_head(version, xs.len()), xs, item),
        cbor::clean(b),
        cbor::reads_back(xs, item, step),
    ensures
        segment_rows(b) == xs.len(),
        cbor::many(
            segment_front(b, arity, version, versioned, max, size),
            xs.len(),
            step,
        ).end(cbor::raw()).bad is None,
{
    let list = cbor::put_all(cbor::items(), xs, item);
    cbor::lemma_put_all_base(segment_head(version, xs.len()), xs, item);
    let c0 = Cur::at(b);
    assert(c0.toks[0] == Tok::Array(2));
    assert(c0.toks[1] == Tok::Uint(version));
    assert(c0.toks[2] == Tok::Array(xs.len() as u64));
    let c = segment_front(b, arity, version, versioned, max, size);
    assert(c.toks =~= list + Seq::<Tok>::empty());
    cbor::lemma_many_read(c, xs, item, step, Seq::empty());
}

/// A ledger is read back as it was written.
pub proof fn law_delivered_read_back(t: Table<Digest32, u64>)
    requires
        t.wf(),
        t.rows().len() <= MAX_AUTHORS,
    ensures
        delivered_fault(cbor::enc(delivered_toks(t.rows()))) is None,
        cbor::toks_of(cbor::enc(delivered_toks(t.rows()))) == delivered_toks(t.rows()),
        delivered_read(t.map(), delivered_toks(t.rows())),
{
    let rows = t.rows();
    let ts = delivered_toks(rows);
    lemma_delivered_encodable(rows);
    cbor::law_items_read_back(ts);
    lemma_delivered_reads(rows);
    lemma_segment_reads(
        cbor::enc(ts),
        DELIVERED_VERSION,
        at_rest("delivery ledger arity"),
        at_rest("delivery ledger version"),
        MAX_AUTHORS as nat,
        Error::SizeLimitExceeded("delivery ledger rows"),
        rows,
        delivered_item(),
        delivered_step(),
    );
}

/// The items of a list can be written where those of each element can.
pub proof fn lemma_put_all_encodable<T>(
    base: Seq<Tok>,
    xs: Seq<T>,
    item: spec_fn(T) -> Seq<Tok>,
)
    requires
        cbor::all_encodable(base),
        forall|i: int| 0 <= i < xs.len() ==> cbor::all_encodable(item(#[trigger] xs[i])),
    ensures
        cbor::all_encodable(cbor::put_all(base, xs, item)),
    decreases xs.len(),
{
    if xs.len() > 0 {
        let front = xs.drop_last();
        assert forall|i: int| 0 <= i < front.len() implies cbor::all_encodable(
            item(#[trigger] front[i]),
        ) by {
            assert(front[i] == xs[i]);
        }
        lemma_put_all_encodable(base, front, item);
        assert(cbor::all_encodable(item(xs[xs.len() - 1])));
    }
}

proof fn lemma_delivered_encodable(rows: Seq<(Digest32, u64)>)
    ensures
        cbor::all_encodable(delivered_toks(rows)),
{
    assert forall|i: int| 0 <= i < rows.len() implies cbor::all_encodable(
        delivered_item()(#[trigger] rows[i]),
    ) by {
        let ts = delivered_item()(rows[i]);
        assert forall|j: int| 0 <= j < ts.len() implies cbor::encodable(#[trigger] ts[j]) by {}
    }
    lemma_put_all_encodable(
        segment_head(DELIVERED_VERSION, rows.len()),
        rows,
        delivered_item(),
    );
}


impl Cur {
    /// Reads the bytes of a composite key.
    pub open spec fn author_key(self) -> Cur {
        self.bytes(cbor::raw()).check(
            self.peek_bytes().len() == hash::COMPOSITE_PUB_LEN,
            Error::MalformedAtRest("channel author key length"),
        )
    }
}


// ---- authors ---------------------------------------------------------------

/// The items of an author row.
pub open spec fn author_item() -> spec_fn((Seq<u8>, Seq<u8>)) -> Seq<Tok> {
    |r: (Seq<u8>, Seq<u8>)|
        cbor::items().push(Tok::Array(2)).push(Tok::Bytes(r.0)).push(Tok::Bytes(r.1))
}

/// Reads an author row.
pub open spec fn author_step() -> spec_fn(Cur) -> Cur {
    |c: Cur|
        c.array(cbor::raw()).check(c.peek_array() == 2, at_rest("channel author tuple arity"))
            .digest(cbor::raw(), at_rest("channel author fingerprint")).author_key()
}

/// The items of a segment with these rows.
pub open spec fn authors_toks(rows: Seq<(Seq<u8>, Seq<u8>)>) -> Seq<Tok> {
    cbor::put_all(segment_head(AUTHORS_VERSION, rows.len()), rows, author_item())
}

/// The front of the segment.
pub open spec fn authors_front(b: Seq<u8>) -> Cur {
    segment_front(
        b,
        at_rest("channel authors arity"),
        AUTHORS_VERSION,
        at_rest("channel authors version"),
        MAX_AUTHORS as nat,
        Error::SizeLimitExceeded("channel authors"),
    )
}

/// What is wrong with the shape of `b`, or `None`.
pub open spec fn authors_fault(b: Seq<u8>) -> Option<Error> {
    cbor::many(authors_front(b), segment_rows(b), author_step()).end(cbor::raw()).bad
}

/// The rows of a segment as far as they could be read, and what stopped the reading.
#[derive(Debug, PartialEq, Eq)]
pub struct AuthorsRead {
    /// The rows in front of the fault, or all of them.
    pub rows: Vec<(Digest32, Vec<u8>)>,
    /// What stopped the reading.
    pub fault: Option<Error>,
}

/// A row as its contents.
pub open spec fn author_view() -> spec_fn((Digest32, Vec<u8>)) -> (Seq<u8>, Seq<u8>) {
    |x: (Digest32, Vec<u8>)| (x.0@, x.1@)
}

impl AuthorsRead {
    /// What every reading keeps: it has no more rows than a segment may have.
    pub open spec fn wf(&self) -> bool {
        self.rows@.len() <= MAX_AUTHORS
    }

    /// The contents of the rows.
    pub open spec fn view(&self) -> Seq<(Seq<u8>, Seq<u8>)> {
        self.rows@.map_values(author_view())
    }

    /// Whether this is what is read from `b`: all rows where there is no fault, and
    /// those in front of the first fault where there is one.
    pub open spec fn read_from(&self, b: Seq<u8>) -> bool {
        &&& self.fault == authors_fault(b)
        &&& match self.fault {
            None => cbor::toks_of(b) == authors_toks(self.view()) && b == cbor::enc(
                cbor::toks_of(b),
            ),
            Some(_) => {
                ||| authors_front(b).bad is Some && self.rows@.len() == 0
                ||| {
                    let k = self.rows@.len();
                    &&& authors_front(b).bad is None
                    &&& k <= segment_rows(b)
                    &&& cbor::many(authors_front(b), k, author_step()).bad is None
                    &&& k < segment_rows(b) ==> cbor::many(
                        authors_front(b),
                        k + 1,
                        author_step(),
                    ).bad is Some
                    &&& cbor::put_all(
                        segment_head(AUTHORS_VERSION, segment_rows(b)),
                        self.view(),
                        author_item(),
                    ).is_prefix_of(cbor::toks_of(b))
                }
            },
        }
    }
}

fn read_author_row(d: &mut Decoder<'_>) -> (r: Result<(Digest32, Vec<u8>), Error>)
    requires
        old(d).wf(),
    ensures
        final(d).wf(),
        final(d).buffer() == old(d).buffer(),
        match r {
            Ok(x) => {
                &&& final(d).cur() == author_step()(old(d).cur())
                &&& final(d).seen() == old(d).seen() + author_item()(author_view()(x))
            },
            Err(e) => author_step()(old(d).cur()).bad == Some(e),
        },
{
    let ghost before = d.seen();
    if d.array(Error::Cbor("cbor"))? != 2 {
        return Err(Error::MalformedAtRest("channel author tuple arity"));
    }
    let fp: Digest32 = d.digest(
        Error::Cbor("cbor"),
        Error::MalformedAtRest("channel author fingerprint"),
    )?;
    let key: &[u8] = d.bytes(Error::Cbor("cbor"))?;
    if key.len() != hash::COMPOSITE_PUB_LEN {
        return Err(Error::MalformedAtRest("channel author key length"));
    }
    let x: (Digest32, Vec<u8>) = (fp, vstd::slice::slice_to_vec(key));
    assert(d.seen() =~= before + author_item()(author_view()(x)));
    Ok(x)
}

/// Reads the rows of the segment as far as they can be read.
pub fn read_authors(b: &[u8]) -> (r: AuthorsRead)
    ensures
        r.wf(),
        r.read_from(b@),
{
    let mut d = Decoder::new(b);
    let mut rows: Vec<(Digest32, Vec<u8>)> = Vec::new();
    let n: u64 = match read_front(
        &mut d,
        Error::MalformedAtRest("channel authors arity"),
        AUTHORS_VERSION,
        Error::MalformedAtRest("channel authors version"),
        MAX_AUTHORS,
        Error::SizeLimitExceeded("channel authors"),
    ) {
        Ok(n) => n,
        Err(e) => {
            proof {
                cbor::lemma_many_stuck(
                    authors_front(b@),
                    0,
                    segment_rows(b@),
                    author_step(),
                );
            }
            return AuthorsRead { rows, fault: Some(e) };
        },
    };
    let ghost start = d.cur();
    let ghost base = d.seen();
    let mut k: u64 = 0;
    assert(rows@.map_values(author_view()) =~= Seq::empty());
    while k < n
        invariant
            k <= n,
            n == segment_rows(b@),
            n <= MAX_AUTHORS,
            start == authors_front(b@),
            start.bad is None,
            base == segment_head(AUTHORS_VERSION, n as nat),
            d.wf(),
            d.buffer() == b@,
            d.cur() == cbor::many(start, k as nat, author_step()),
            rows@.len() == k,
            d.seen() == cbor::put_all(base, rows@.map_values(author_view()), author_item()),
        decreases n - k,
    {
        let ghost seen = d.seen();
        proof {
            d.lemma_seen_is_prefix();
        }
        match read_author_row(&mut d) {
            Ok(x) => {
                proof {
                    let vs = rows@.map_values(author_view());
                    let v = author_view()(x);
                    cbor::lemma_put_all_push(base, vs, v, author_item());
                    assert(rows@.push(x).map_values(author_view()) =~= vs.push(v));
                }
                rows.push(x);
            },
            Err(e) => {
                proof {
                    cbor::lemma_many_stuck(start, (k + 1) as nat, n as nat, author_step());
                }
                return AuthorsRead { rows, fault: Some(e) };
            },
        }
        k = k + 1;
    }
    proof {
        d.lemma_seen_is_prefix();
    }
    match d.finish(Error::Cbor("cbor")) {
        Ok(_) => {
            let r: AuthorsRead = AuthorsRead { rows, fault: None };
            assert(r.view() == r.rows@.map_values(author_view()));
            r
        },
        Err(e) => AuthorsRead { rows, fault: Some(e) },
    }
}


// ---- services ---------------------------------------------------------------

/// The items of a service row.
pub open spec fn service_item() -> spec_fn((Seq<char>, Seq<char>)) -> Seq<Tok> {
    |r: (Seq<char>, Seq<char>)|
        cbor::items().push(Tok::Array(2)).push(Tok::Text(r.0)).push(Tok::Text(r.1))
}

/// Reads a service row.
pub open spec fn service_step() -> spec_fn(Cur) -> Cur {
    |c: Cur|
        c.array(cbor::raw()).check(c.peek_array() == 2, at_rest("channel service tuple arity"))
            .text(cbor::raw()).text(cbor::raw())
}

/// The items of a segment with these rows.
pub open spec fn services_toks(rows: Seq<(Seq<char>, Seq<char>)>) -> Seq<Tok> {
    cbor::put_all(segment_head(SERVICES_VERSION, rows.len()), rows, service_item())
}

/// The front of the segment.
pub open spec fn services_front(b: Seq<u8>) -> Cur {
    segment_front(
        b,
        at_rest("channel services arity"),
        SERVICES_VERSION,
        at_rest("channel services version"),
        MAX_SERVICES as nat,
        Error::SizeLimitExceeded("channel services"),
    )
}

/// What is wrong with the shape of `b`, or `None`.
pub open spec fn services_fault(b: Seq<u8>) -> Option<Error> {
    cbor::many(services_front(b), segment_rows(b), service_step()).end(cbor::raw()).bad
}

/// The rows of a segment as far as they could be read, and what stopped the reading.
#[derive(Debug, PartialEq, Eq)]
pub struct ServicesRead {
    /// The rows in front of the fault, or all of them.
    pub rows: Vec<(String, String)>,
    /// What stopped the reading.
    pub fault: Option<Error>,
}

/// A row as its contents.
pub open spec fn service_view() -> spec_fn((String, String)) -> (Seq<char>, Seq<char>) {
    |x: (String, String)| (x.0@, x.1@)
}

impl ServicesRead {
    /// What every reading keeps: it has no more rows than a segment may have.
    pub open spec fn wf(&self) -> bool {
        self.rows@.len() <= MAX_SERVICES
    }

    /// The contents of the rows.
    pub open spec fn view(&self) -> Seq<(Seq<char>, Seq<char>)> {
        self.rows@.map_values(service_view())
    }

    /// Whether this is what is read from `b`: all rows where there is no fault, and
    /// those in front of the first fault where there is one.
    pub open spec fn read_from(&self, b: Seq<u8>) -> bool {
        &&& self.fault == services_fault(b)
        &&& match self.fault {
            None => cbor::toks_of(b) == services_toks(self.view()) && b == cbor::enc(
                cbor::toks_of(b),
            ),
            Some(_) => {
                ||| services_front(b).bad is Some && self.rows@.len() == 0
                ||| {
                    let k = self.rows@.len();
                    &&& services_front(b).bad is None
                    &&& k <= segment_rows(b)
                    &&& cbor::many(services_front(b), k, service_step()).bad is None
                    &&& k < segment_rows(b) ==> cbor::many(
                        services_front(b),
                        k + 1,
                        service_step(),
                    ).bad is Some
                    &&& cbor::put_all(
                        segment_head(SERVICES_VERSION, segment_rows(b)),
                        self.view(),
                        service_item(),
                    ).is_prefix_of(cbor::toks_of(b))
                }
            },
        }
    }
}

fn read_service_row(d: &mut Decoder<'_>) -> (r: Result<(String, String), Error>)
    requires
        old(d).wf(),
    ensures
        final(d).wf(),
        final(d).buffer() == old(d).buffer(),
        match r {
            Ok(x) => {
                &&& final(d).cur() == service_step()(old(d).cur())
                &&& final(d).seen() == old(d).seen() + service_item()(service_view()(x))
            },
            Err(e) => service_step()(old(d).cur()).bad == Some(e),
        },
{
    let ghost before = d.seen();
    if d.array(Error::Cbor("cbor"))? != 2 {
        return Err(Error::MalformedAtRest("channel service tuple arity"));
    }
    let tag: String = d.text(Error::Cbor("cbor"))?;
    let addr: String = d.text(Error::Cbor("cbor"))?;
    let x: (String, String) = (tag, addr);
    assert(d.seen() =~= before + service_item()(service_view()(x)));
    Ok(x)
}

/// Reads the rows of the segment as far as they can be read.
pub fn read_services(b: &[u8]) -> (r: ServicesRead)
    ensures
        r.wf(),
        r.read_from(b@),
{
    let mut d = Decoder::new(b);
    let mut rows: Vec<(String, String)> = Vec::new();
    let n: u64 = match read_front(
        &mut d,
        Error::MalformedAtRest("channel services arity"),
        SERVICES_VERSION,
        Error::MalformedAtRest("channel services version"),
        MAX_SERVICES,
        Error::SizeLimitExceeded("channel services"),
    ) {
        Ok(n) => n,
        Err(e) => {
            proof {
                cbor::lemma_many_stuck(
                    services_front(b@),
                    0,
                    segment_rows(b@),
                    service_step(),
                );
            }
            return ServicesRead { rows, fault: Some(e) };
        },
    };
    let ghost start = d.cur();
    let ghost base = d.seen();
    let mut k: u64 = 0;
    assert(rows@.map_values(service_view()) =~= Seq::empty());
    while k < n
        invariant
            k <= n,
            n == segment_rows(b@),
            n <= MAX_SERVICES,
            start == services_front(b@),
            start.bad is None,
            base == segment_head(SERVICES_VERSION, n as nat),
            d.wf(),
            d.buffer() == b@,
            d.cur() == cbor::many(start, k as nat, service_step()),
            rows@.len() == k,
            d.seen() == cbor::put_all(base, rows@.map_values(service_view()), service_item()),
        decreases n - k,
    {
        let ghost seen = d.seen();
        proof {
            d.lemma_seen_is_prefix();
        }
        match read_service_row(&mut d) {
            Ok(x) => {
                proof {
                    let vs = rows@.map_values(service_view());
                    let v = service_view()(x);
                    cbor::lemma_put_all_push(base, vs, v, service_item());
                    assert(rows@.push(x).map_values(service_view()) =~= vs.push(v));
                }
                rows.push(x);
            },
            Err(e) => {
                proof {
                    cbor::lemma_many_stuck(start, (k + 1) as nat, n as nat, service_step());
                }
                return ServicesRead { rows, fault: Some(e) };
            },
        }
        k = k + 1;
    }
    proof {
        d.lemma_seen_is_prefix();
    }
    match d.finish(Error::Cbor("cbor")) {
        Ok(_) => {
            let r: ServicesRead = ServicesRead { rows, fault: None };
            assert(r.view() == r.rows@.map_values(service_view()));
            r
        },
        Err(e) => ServicesRead { rows, fault: Some(e) },
    }
}


// ---- receivers ---------------------------------------------------------------

/// The items of a receiver chain row.
pub open spec fn receiver_item() -> spec_fn(Seq<u8>) -> Seq<Tok> {
    |r: Seq<u8>|
        cbor::items().push(Tok::Bytes(r))
}

/// Reads a receiver chain row.
pub open spec fn receiver_step() -> spec_fn(Cur) -> Cur {
    |c: Cur|
        c.bytes(cbor::raw())
}

/// The items of a segment with these rows.
pub open spec fn receivers_toks(rows: Seq<Seq<u8>>) -> Seq<Tok> {
    cbor::put_all(segment_head(RECEIVERS_VERSION, rows.len()), rows, receiver_item())
}

/// The front of the segment.
pub open spec fn receivers_front(b: Seq<u8>) -> Cur {
    segment_front(
        b,
        at_rest("channel receivers arity"),
        RECEIVERS_VERSION,
        at_rest("channel receivers version"),
        MAX_RECEIVER_CHAINS as nat,
        Error::SizeLimitExceeded("channel receiver chains"),
    )
}

/// What is wrong with the shape of `b`, or `None`.
pub open spec fn receivers_fault(b: Seq<u8>) -> Option<Error> {
    cbor::many(receivers_front(b), segment_rows(b), receiver_step()).end(cbor::raw()).bad
}

/// The rows of a segment as far as they could be read, and what stopped the reading.
#[derive(Debug, PartialEq, Eq)]
pub struct ReceiversRead {
    /// The rows in front of the fault, or all of them.
    pub rows: Vec<Vec<u8>>,
    /// What stopped the reading.
    pub fault: Option<Error>,
}

/// A row as its contents.
pub open spec fn receiver_view() -> spec_fn(Vec<u8>) -> Seq<u8> {
    |x: Vec<u8>| x@
}

impl ReceiversRead {
    /// What every reading keeps: it has no more rows than a segment may have.
    pub open spec fn wf(&self) -> bool {
        self.rows@.len() <= MAX_RECEIVER_CHAINS
    }

    /// The contents of the rows.
    pub open spec fn view(&self) -> Seq<Seq<u8>> {
        self.rows@.map_values(receiver_view())
    }

    /// Whether this is what is read from `b`: all rows where there is no fault, and
    /// those in front of the first fault where there is one.
    pub open spec fn read_from(&self, b: Seq<u8>) -> bool {
        &&& self.fault == receivers_fault(b)
        &&& match self.fault {
            None => cbor::toks_of(b) == receivers_toks(self.view()) && b == cbor::enc(
                cbor::toks_of(b),
            ),
            Some(_) => {
                ||| receivers_front(b).bad is Some && self.rows@.len() == 0
                ||| {
                    let k = self.rows@.len();
                    &&& receivers_front(b).bad is None
                    &&& k <= segment_rows(b)
                    &&& cbor::many(receivers_front(b), k, receiver_step()).bad is None
                    &&& k < segment_rows(b) ==> cbor::many(
                        receivers_front(b),
                        k + 1,
                        receiver_step(),
                    ).bad is Some
                    &&& cbor::put_all(
                        segment_head(RECEIVERS_VERSION, segment_rows(b)),
                        self.view(),
                        receiver_item(),
                    ).is_prefix_of(cbor::toks_of(b))
                }
            },
        }
    }
}

fn read_receiver_row(d: &mut Decoder<'_>) -> (r: Result<Vec<u8>, Error>)
    requires
        old(d).wf(),
    ensures
        final(d).wf(),
        final(d).buffer() == old(d).buffer(),
        match r {
            Ok(x) => {
                &&& final(d).cur() == receiver_step()(old(d).cur())
                &&& final(d).seen() == old(d).seen() + receiver_item()(receiver_view()(x))
            },
            Err(e) => receiver_step()(old(d).cur()).bad == Some(e),
        },
{
    let ghost before = d.seen();
    let state: &[u8] = d.bytes(Error::Cbor("cbor"))?;
    let x: Vec<u8> = vstd::slice::slice_to_vec(state);
    assert(d.seen() =~= before + receiver_item()(receiver_view()(x)));
    Ok(x)
}

/// Reads the rows of the segment as far as they can be read.
pub fn read_receivers(b: &[u8]) -> (r: ReceiversRead)
    ensures
        r.wf(),
        r.read_from(b@),
{
    let mut d = Decoder::new(b);
    let mut rows: Vec<Vec<u8>> = Vec::new();
    let n: u64 = match read_front(
        &mut d,
        Error::MalformedAtRest("channel receivers arity"),
        RECEIVERS_VERSION,
        Error::MalformedAtRest("channel receivers version"),
        MAX_RECEIVER_CHAINS,
        Error::SizeLimitExceeded("channel receiver chains"),
    ) {
        Ok(n) => n,
        Err(e) => {
            proof {
                cbor::lemma_many_stuck(
                    receivers_front(b@),
                    0,
                    segment_rows(b@),
                    receiver_step(),
                );
            }
            return ReceiversRead { rows, fault: Some(e) };
        },
    };
    let ghost start = d.cur();
    let ghost base = d.seen();
    let mut k: u64 = 0;
    assert(rows@.map_values(receiver_view()) =~= Seq::empty());
    while k < n
        invariant
            k <= n,
            n == segment_rows(b@),
            n <= MAX_RECEIVER_CHAINS,
            start == receivers_front(b@),
            start.bad is None,
            base == segment_head(RECEIVERS_VERSION, n as nat),
            d.wf(),
            d.buffer() == b@,
            d.cur() == cbor::many(start, k as nat, receiver_step()),
            rows@.len() == k,
            d.seen() == cbor::put_all(base, rows@.map_values(receiver_view()), receiver_item()),
        decreases n - k,
    {
        let ghost seen = d.seen();
        proof {
            d.lemma_seen_is_prefix();
        }
        match read_receiver_row(&mut d) {
            Ok(x) => {
                proof {
                    let vs = rows@.map_values(receiver_view());
                    let v = receiver_view()(x);
                    cbor::lemma_put_all_push(base, vs, v, receiver_item());
                    assert(rows@.push(x).map_values(receiver_view()) =~= vs.push(v));
                }
                rows.push(x);
            },
            Err(e) => {
                proof {
                    cbor::lemma_many_stuck(start, (k + 1) as nat, n as nat, receiver_step());
                }
                return ReceiversRead { rows, fault: Some(e) };
            },
        }
        k = k + 1;
    }
    proof {
        d.lemma_seen_is_prefix();
    }
    match d.finish(Error::Cbor("cbor")) {
        Ok(_) => {
            let r: ReceiversRead = ReceiversRead { rows, fault: None };
            assert(r.view() == r.rows@.map_values(receiver_view()));
            r
        },
        Err(e) => ReceiversRead { rows, fault: Some(e) },
    }
}

// ---- what the rows mean ------------------------------------------------------

/// The first fault among `n` rows, in row order.
pub open spec fn first_fault(n: nat, f: spec_fn(int) -> Option<Error>) -> Option<Error>
    decreases n,
{
    if n == 0 {
        None
    } else {
        match first_fault((n - 1) as nat, f) {
            Some(e) => Some(e),
            None => f(n - 1),
        }
    }
}

/// The first fault among more rows is the first fault among fewer, where there is one.
pub proof fn lemma_first_fault(k: nat, n: nat, f: spec_fn(int) -> Option<Error>)
    requires
        k <= n,
        first_fault(k, f) is Some,
    ensures
        first_fault(n, f) == first_fault(k, f),
    decreases n,
{
    if k < n {
        lemma_first_fault(k, (n - 1) as nat, f);
    }
}

/// The fault of the rows, or else the fault that stopped the reading.
pub open spec fn rows_fault(
    n: nat,
    f: spec_fn(int) -> Option<Error>,
    shape: Option<Error>,
) -> Option<Error> {
    match first_fault(n, f) {
        Some(e) => Some(e),
        None => shape,
    }
}

/// The fault of an author row: its key does not decode, or it is another's key.
pub open spec fn author_fault(
    rows: Seq<(Digest32, Vec<u8>)>,
    decoded: Seq<Result<CompositePublicKey, Error>>,
) -> spec_fn(int) -> Option<Error> {
    |i: int|
        match decoded[i] {
            Err(e) => Some(e),
            Ok(k) => if k.fingerprint@ == rows[i].0@ {
                None
            } else {
                Some(at_rest("channel author key/fingerprint"))
            },
        }
}

/// Whether what decoded is a key.
pub open spec fn keys_decoded(decoded: Seq<Result<CompositePublicKey, Error>>) -> bool {
    forall|i: int| 0 <= i < decoded.len() ==> ((#[trigger] decoded[i]) matches Ok(k) ==> k.wf())
}

/// The rows with their decoded keys.
pub open spec fn author_keys_of(
    rows: Seq<(Digest32, Vec<u8>)>,
    decoded: Seq<Result<CompositePublicKey, Error>>,
) -> Seq<(Digest32, CompositePublicKey)> {
    Seq::new(rows.len(), |i: int| (rows[i].0, decoded[i]->Ok_0))
}

/// The admitted authors that a segment lists. `decoded` says what each row's key bytes
/// decode to. A stored fingerprint must be its key's own: a swapped pair would admit
/// an identity under another's name.
pub fn parse_authors(
    read: AuthorsRead,
    decoded: Vec<Result<CompositePublicKey, Error>>,
) -> (r: Result<Table<Digest32, CompositePublicKey>, Error>)
    requires
        decoded@.len() == read.rows@.len(),
    ensures
        match r {
            Ok(t) => {
                &&& t.wf()
                &&& rows_fault(
                    read.rows@.len(),
                    author_fault(read.rows@, decoded@),
                    read.fault,
                ) is None
                &&& t.map() == table::map_of(author_keys_of(read.rows@, decoded@))
                &&& t.rows().len() <= read.rows@.len()
                &&& keys_decoded(decoded@) ==> state::keys_whole(t.map())
            },
            Err(e) => rows_fault(
                read.rows@.len(),
                author_fault(read.rows@, decoded@),
                read.fault,
            ) == Some(e),
        },
{
    let ghost all = decoded@;
    let ghost f = author_fault(read.rows@, all);
    let mut left = decoded;
    let mut t: Table<Digest32, CompositePublicKey> = Table::new();
    let mut i: usize = 0;
    assert(all.skip(0) =~= all);
    assert(author_keys_of(read.rows@, all).take(0) =~= Seq::empty());
    while i < read.rows.len()
        invariant
            i <= read.rows@.len(),
            all.len() == read.rows@.len(),
            all == decoded@,
            left@ == all.skip(i as int),
            f == author_fault(read.rows@, all),
            first_fault(i as nat, f) is None,
            t.wf(),
            t.map() == table::map_of(author_keys_of(read.rows@, all).take(i as int)),
            t.rows().len() <= i,
            keys_decoded(all) ==> state::keys_whole(t.map()),
        decreases read.rows@.len() - i,
    {
        let ghost keys = author_keys_of(read.rows@, all);
        let one: Result<CompositePublicKey, Error> = left.remove(0);
        assert(one == all[i as int]);
        assert(left@ =~= all.skip(i + 1));
        match one {
            Err(e) => {
                proof {
                    assert(first_fault((i + 1) as nat, f) == Some(e));
                    lemma_first_fault((i + 1) as nat, read.rows@.len(), f);
                }
                return Err(e);
            },
            Ok(key) => {
                if !same_digest(&key.fingerprint, &read.rows[i].0) {
                    proof {
                        assert(first_fault((i + 1) as nat, f) is Some);
                        lemma_first_fault((i + 1) as nat, read.rows@.len(), f);
                    }
                    return Err(Error::MalformedAtRest("channel author key/fingerprint"));
                }
                proof {
                    assert(keys.take(i + 1).drop_last() =~= keys.take(i as int));
                    assert(keys[i as int] == (read.rows@[i as int].0, key));
                }
                t.insert(read.rows[i].0, key);
            },
        }
        i = i + 1;
    }
    proof {
        let keys = author_keys_of(read.rows@, all);
        assert(keys.take(read.rows@.len() as int) =~= keys);
    }
    match read.fault {
        Some(e) => Err(e),
        None => Ok(t),
    }
}

/// What an authors segment writes of a table.
pub open spec fn authors_view(rows: Seq<(Digest32, CompositePublicKey)>) -> Seq<
    (Seq<u8>, Seq<u8>),
> {
    Seq::new(rows.len(), |i: int| (rows[i].0@, rows[i].1.bytes@))
}

/// The authors segment: fingerprints in ascending order, each with its key.
pub fn authors_bytes(authors: &Table<Digest32, CompositePublicKey>) -> (b: Vec<u8>)
    ensures
        b@ == cbor::enc(authors_toks(authors_view(authors.rows()))),
{
    let mut e = Encoder::new();
    e.array(2);
    e.uint(AUTHORS_VERSION);
    e.array(authors.len() as u64);
    let ghost base = e.toks();
    let ghost rows = authors_view(authors.rows());
    let mut i: usize = 0;
    assert(rows.take(0) =~= Seq::empty());
    while i < authors.len()
        invariant
            i <= rows.len(),
            rows == authors_view(authors.rows()),
            e.wf(),
            e.toks() == cbor::put_all(base, rows.take(i as int), author_item()),
        decreases rows.len() - i,
    {
        let r: &(Digest32, CompositePublicKey) = authors.row(i);
        let ghost before = e.toks();
        e.array(2);
        e.digest(&r.0);
        e.bytes(r.1.bytes.as_slice());
        proof {
            assert(e.toks() =~= before + author_item()(rows[i as int]));
            cbor::lemma_put_all_push(base, rows.take(i as int), rows[i as int], author_item());
            assert(rows.take(i as int).push(rows[i as int]) =~= rows.take(i + 1));
        }
        i = i + 1;
    }
    assert(rows.take(rows.len() as int) =~= rows);
    e.finish()
}

/// An authors segment is read back as it was written, row for row.
pub proof fn law_authors_read_back(rows: Seq<(Digest32, CompositePublicKey)>)
    requires
        rows.len() <= MAX_AUTHORS,
        forall|i: int|
            0 <= i < rows.len() ==> (#[trigger] rows[i]).1.bytes@.len() == hash::COMPOSITE_PUB_LEN,
    ensures
        authors_fault(cbor::enc(authors_toks(authors_view(rows)))) is None,
        cbor::toks_of(cbor::enc(authors_toks(authors_view(rows)))) == authors_toks(
            authors_view(rows),
        ),
{
    let vs = authors_view(rows);
    let ts = authors_toks(vs);
    assert forall|i: int| 0 <= i < vs.len() implies cbor::all_encodable(
        author_item()(#[trigger] vs[i]),
    ) by {
        let us = author_item()(vs[i]);
        assert(rows[i].1.bytes@.len() == hash::COMPOSITE_PUB_LEN);
        assert forall|j: int| 0 <= j < us.len() implies cbor::encodable(#[trigger] us[j]) by {}
    }
    lemma_put_all_encodable(segment_head(AUTHORS_VERSION, vs.len()), vs, author_item());
    cbor::law_items_read_back(ts);
    assert(cbor::reads_back(vs, author_item(), author_step())) by {
        assert forall|i: int, c: Cur, tail: Seq<Tok>|
            0 <= i < vs.len() && c.bad is None && c.toks == #[trigger] (author_item()(
                #[trigger] vs[i],
            ) + tail) implies #[trigger] author_step()(c) == (Cur { toks: tail, ..c }) by {
            assert(rows[i].1.bytes@.len() == hash::COMPOSITE_PUB_LEN);
            assert(author_step()(c).toks =~= tail);
        }
    }
    lemma_segment_reads(
        cbor::enc(ts),
        AUTHORS_VERSION,
        at_rest("channel authors arity"),
        at_rest("channel authors version"),
        MAX_AUTHORS as nat,
        Error::SizeLimitExceeded("channel authors"),
        vs,
        author_item(),
        author_step(),
    );
}

/// Whether a service may carry this tag.
pub open spec fn service_tag_ok(tag: Seq<char>) -> bool {
    1 <= vstd::utf8::encode_utf8(tag).len() <= MAX_SERVICE_TAG_LEN
}

/// The fault of a service row: its address does not parse, or its tag is empty or too
/// long.
pub open spec fn service_fault(
    rows: Seq<(String, String)>,
    parsed: Seq<Option<String>>,
) -> spec_fn(int) -> Option<Error> {
    |i: int|
        if parsed[i] is None {
            Some(at_rest("channel service address"))
        } else if !service_tag_ok(rows[i].0@) {
            Some(at_rest("channel service tag length"))
        } else {
            None
        }
}

/// The rows with their parsed addresses.
pub open spec fn services_of(
    rows: Seq<(String, String)>,
    parsed: Seq<Option<String>>,
) -> Seq<(String, String)> {
    Seq::new(rows.len(), |i: int| (rows[i].0, parsed[i]->Some_0))
}

/// The offered services that a segment lists. `parsed` says what each row's address
/// text parses to, in canonical text.
pub fn parse_services(read: ServicesRead, parsed: Vec<Option<String>>) -> (r: Result<
    Table<String, String>,
    Error,
>)
    requires
        parsed@.len() == read.rows@.len(),
    ensures
        match r {
            Ok(t) => {
                &&& t.wf()
                &&& rows_fault(
                    read.rows@.len(),
                    service_fault(read.rows@, parsed@),
                    read.fault,
                ) is None
                &&& t.map() == table::map_of(services_of(read.rows@, parsed@))
                &&& t.rows().len() <= read.rows@.len()
                &&& state::tags_ok(t.map())
            },
            Err(e) => rows_fault(
                read.rows@.len(),
                service_fault(read.rows@, parsed@),
                read.fault,
            ) == Some(e),
        },
{
    let ghost rows = read.rows@;
    let ghost all = parsed@;
    let ghost f = service_fault(rows, all);
    let n: usize = read.rows.len();
    let mut tags: Vec<(String, String)> = read.rows;
    let mut left = parsed;
    let mut t: Table<String, String> = Table::new();
    let mut i: usize = 0;
    assert(all.skip(0) =~= all);
    assert(rows.skip(0) =~= rows);
    assert(services_of(rows, all).take(0) =~= Seq::empty());
    while i < n
        invariant
            i <= n == rows.len(),
            all.len() == rows.len(),
            all == parsed@,
            rows == read.rows@,
            left@ == all.skip(i as int),
            tags@ == rows.skip(i as int),
            f == service_fault(rows, all),
            first_fault(i as nat, f) is None,
            t.wf(),
            t.map() == table::map_of(services_of(rows, all).take(i as int)),
            t.rows().len() <= i,
            state::tags_ok(t.map()),
        decreases n - i,
    {
        let ghost keys = services_of(rows, all);
        let one: Option<String> = left.remove(0);
        let row: (String, String) = tags.remove(0);
        assert(one == all[i as int]);
        assert(row == rows[i as int]);
        assert(left@ =~= all.skip(i + 1));
        assert(tags@ =~= rows.skip(i + 1));
        let (tag, _) = row;
        match one {
            None => {
                proof {
                    assert(first_fault((i + 1) as nat, f) is Some);
                    lemma_first_fault((i + 1) as nat, rows.len(), f);
                }
                return Err(Error::MalformedAtRest("channel service address"));
            },
            Some(addr) => {
                let len: usize = tag.as_str().as_bytes().len();
                if len == 0 || len > MAX_SERVICE_TAG_LEN {
                    proof {
                        assert(first_fault((i + 1) as nat, f) is Some);
                        lemma_first_fault((i + 1) as nat, rows.len(), f);
                    }
                    return Err(Error::MalformedAtRest("channel service tag length"));
                }
                proof {
                    assert(keys.take(i + 1).drop_last() =~= keys.take(i as int));
                    assert(keys[i as int] == (tag, addr));
                }
                t.insert(tag, addr);
            },
        }
        i = i + 1;
    }
    proof {
        let keys = services_of(rows, all);
        assert(keys.take(rows.len() as int) =~= keys);
    }
    match read.fault {
        Some(e) => Err(e),
        None => Ok(t),
    }
}

/// What a services segment writes of a table.
pub open spec fn services_view(rows: Seq<(String, String)>) -> Seq<(Seq<char>, Seq<char>)> {
    Seq::new(rows.len(), |i: int| (rows[i].0@, rows[i].1@))
}

/// The services segment: tags in ascending order, each with its address.
pub fn services_bytes(services: &Table<String, String>) -> (b: Vec<u8>)
    ensures
        b@ == cbor::enc(services_toks(services_view(services.rows()))),
{
    let mut e = Encoder::new();
    e.array(2);
    e.uint(SERVICES_VERSION);
    e.array(services.len() as u64);
    let ghost base = e.toks();
    let ghost rows = services_view(services.rows());
    let mut i: usize = 0;
    assert(rows.take(0) =~= Seq::empty());
    while i < services.len()
        invariant
            i <= rows.len(),
            rows == services_view(services.rows()),
            e.wf(),
            e.toks() == cbor::put_all(base, rows.take(i as int), service_item()),
        decreases rows.len() - i,
    {
        let r: &(String, String) = services.row(i);
        let ghost before = e.toks();
        e.array(2);
        e.text(&r.0);
        e.text(&r.1);
        proof {
            assert(e.toks() =~= before + service_item()(rows[i as int]));
            cbor::lemma_put_all_push(base, rows.take(i as int), rows[i as int], service_item());
            assert(rows.take(i as int).push(rows[i as int]) =~= rows.take(i + 1));
        }
        i = i + 1;
    }
    assert(rows.take(rows.len() as int) =~= rows);
    e.finish()
}

/// A services segment is read back as it was written, row for row.
pub proof fn law_services_read_back(rows: Seq<(String, String)>)
    requires
        rows.len() <= MAX_SERVICES,
        cbor::all_encodable(services_toks(services_view(rows))),
    ensures
        services_fault(cbor::enc(services_toks(services_view(rows)))) is None,
        cbor::toks_of(cbor::enc(services_toks(services_view(rows)))) == services_toks(
            services_view(rows),
        ),
{
    let vs = services_view(rows);
    let ts = services_toks(vs);
    cbor::law_items_read_back(ts);
    assert(cbor::reads_back(vs, service_item(), service_step())) by {
        assert forall|i: int, c: Cur, tail: Seq<Tok>|
            0 <= i < vs.len() && c.bad is None && c.toks == #[trigger] (service_item()(
                #[trigger] vs[i],
            ) + tail) implies #[trigger] service_step()(c) == (Cur { toks: tail, ..c }) by {
            assert(service_step()(c).toks =~= tail);
        }
    }
    lemma_segment_reads(
        cbor::enc(ts),
        SERVICES_VERSION,
        at_rest("channel services arity"),
        at_rest("channel services version"),
        MAX_SERVICES as nat,
        Error::SizeLimitExceeded("channel services"),
        vs,
        service_item(),
        service_step(),
    );
}

/// Which sender-key generation a receiver chain belongs to.
#[derive(Debug, Clone, Copy, PartialEq, Eq)]
pub struct ChainSlot {
    /// The author.
    pub author: Digest32,
    /// The generation.
    pub chain_id: u64,
}

impl ReceiverChain {
    /// The slot that the chain carries.
    pub open spec fn slot(&self) -> ChainSlot {
        ChainSlot { author: self.author_id, chain_id: self.chain_id }
    }
}

impl ChainSlot {
    fn bytes(&self) -> (b: Vec<u8>)
        ensures
            b@ == self.key_bytes(),
    {
        let mut b: Vec<u8> = vstd::slice::slice_to_vec(self.author.as_slice());
        cbor::put_be(&mut b, self.chain_id, 8);
        b
    }
}

impl Key for ChainSlot {
    open spec fn key_bytes(&self) -> Seq<u8> {
        self.author@ + cbor::be(self.chain_id as nat, 8)
    }

    fn before(&self, other: &Self) -> (r: bool) {
        let a: Vec<u8> = self.bytes();
        let b: Vec<u8> = other.bytes();
        hash::is_before(a.as_slice(), b.as_slice())
    }

    fn same(&self, other: &Self) -> (r: bool) {
        let a: Vec<u8> = self.bytes();
        let b: Vec<u8> = other.bytes();
        hash::same_bytes(a.as_slice(), b.as_slice())
    }
}

/// A receiver chain: whose it is, which generation, and its ratchet state as a blob.
#[derive(Debug, PartialEq, Eq)]
pub struct ReceiverChain {
    /// The author who released the key.
    pub author_id: Digest32,
    /// The generation.
    pub chain_id: u64,
    /// The serialised state.
    pub state: Vec<u8>,
}

/// The fault of a receiver row: its state does not decode.
pub open spec fn receiver_fault(decoded: Seq<Result<ReceiverChain, Error>>) -> spec_fn(
    int,
) -> Option<Error> {
    |i: int|
        match decoded[i] {
            Err(e) => Some(e),
            Ok(_) => None,
        }
}

/// The chains under the slots that they themselves name.
pub open spec fn receivers_of(decoded: Seq<Result<ReceiverChain, Error>>) -> Seq<
    (ChainSlot, ReceiverChain),
> {
    Seq::new(
        decoded.len(),
        |i: int|
            (
                ChainSlot {
                    author: decoded[i]->Ok_0.author_id,
                    chain_id: decoded[i]->Ok_0.chain_id,
                },
                decoded[i]->Ok_0,
            ),
    )
}

/// The receiver chains that a segment lists. `decoded` says what each row's state
/// decodes to; a chain stands under the author and the generation that it carries.
pub fn parse_receivers(
    read: ReceiversRead,
    decoded: Vec<Result<ReceiverChain, Error>>,
) -> (r: Result<Table<ChainSlot, ReceiverChain>, Error>)
    requires
        decoded@.len() == read.rows@.len(),
    ensures
        match r {
            Ok(t) => {
                &&& t.wf()
                &&& rows_fault(read.rows@.len(), receiver_fault(decoded@), read.fault) is None
                &&& t.map() == table::map_of(receivers_of(decoded@))
                &&& t.rows().len() <= read.rows@.len()
                &&& state::chains_named(t.map())
            },
            Err(e) => rows_fault(read.rows@.len(), receiver_fault(decoded@), read.fault)
                == Some(e),
        },
{
    let ghost all = decoded@;
    let ghost f = receiver_fault(all);
    let n: usize = decoded.len();
    let mut left = decoded;
    let mut t: Table<ChainSlot, ReceiverChain> = Table::new();
    let mut i: usize = 0;
    assert(all.skip(0) =~= all);
    assert(receivers_of(all).take(0) =~= Seq::empty());
    while i < n
        invariant
            i <= n == all.len(),
            n == read.rows@.len(),
            all == decoded@,
            left@ == all.skip(i as int),
            f == receiver_fault(all),
            first_fault(i as nat, f) is None,
            t.wf(),
            t.map() == table::map_of(receivers_of(all).take(i as int)),
            t.rows().len() <= i,
            state::chains_named(t.map()),
        decreases n - i,
    {
        let ghost keys = receivers_of(all);
        let one: Result<ReceiverChain, Error> = left.remove(0);
        assert(one == all[i as int]);
        assert(left@ =~= all.skip(i + 1));
        match one {
            Err(e) => {
                proof {
                    assert(first_fault((i + 1) as nat, f) == Some(e));
                    lemma_first_fault((i + 1) as nat, all.len(), f);
                }
                return Err(e);
            },
            Ok(chain) => {
                let slot: ChainSlot = ChainSlot {
                    author: chain.author_id,
                    chain_id: chain.chain_id,
                };
                proof {
                    assert(keys.take(i + 1).drop_last() =~= keys.take(i as int));
                    assert(keys[i as int] == (slot, chain));
                }
                t.insert(slot, chain);
            },
        }
        i = i + 1;
    }
    proof {
        let keys = receivers_of(all);
        assert(keys.take(all.len() as int) =~= keys);
    }
    match read.fault {
        Some(e) => Err(e),
        None => Ok(t),
    }
}

/// What a receivers segment writes of a table.
pub open spec fn receivers_view(rows: Seq<(ChainSlot, ReceiverChain)>) -> Seq<Seq<u8>> {
    Seq::new(rows.len(), |i: int| rows[i].1.state@)
}

/// The receiver-chains segment: the states of the chains, in slot order.
pub fn receivers_bytes(receivers: &Table<ChainSlot, ReceiverChain>) -> (b: Vec<u8>)
    ensures
        b@ == cbor::enc(receivers_toks(receivers_view(receivers.rows()))),
{
    let mut e = Encoder::new();
    e.array(2);
    e.uint(RECEIVERS_VERSION);
    e.array(receivers.len() as u64);
    let ghost base = e.toks();
    let ghost rows = receivers_view(receivers.rows());
    let mut i: usize = 0;
    assert(rows.take(0) =~= Seq::empty());
    while i < receivers.len()
        invariant
            i <= rows.len(),
            rows == receivers_view(receivers.rows()),
            e.wf(),
            e.toks() == cbor::put_all(base, rows.take(i as int), receiver_item()),
        decreases rows.len() - i,
    {
        let r: &(ChainSlot, ReceiverChain) = receivers.row(i);
        let ghost before = e.toks();
        e.bytes(r.1.state.as_slice());
        proof {
            assert(e.toks() =~= before + receiver_item()(rows[i as int]));
            cbor::lemma_put_all_push(base, rows.take(i as int), rows[i as int], receiver_item());
            assert(rows.take(i as int).push(rows[i as int]) =~= rows.take(i + 1));
        }
        i = i + 1;
    }
    assert(rows.take(rows.len() as int) =~= rows);
    e.finish()
}

/// A receiver-chains segment is read back as it was written, row for row.
pub proof fn law_receivers_read_back(rows: Seq<(ChainSlot, ReceiverChain)>)
    requires
        rows.len() <= MAX_RECEIVER_CHAINS,
        cbor::all_encodable(receivers_toks(receivers_view(rows))),
    ensures
        receivers_fault(cbor::enc(receivers_toks(receivers_view(rows)))) is None,
        cbor::toks_of(cbor::enc(receivers_toks(receivers_view(rows)))) == receivers_toks(
            receivers_view(rows),
        ),
{
    let vs = receivers_view(rows);
    let ts = receivers_toks(vs);
    cbor::law_items_read_back(ts);
    assert(cbor::reads_back(vs, receiver_item(), receiver_step())) by {
        assert forall|i: int, c: Cur, tail: Seq<Tok>|
            0 <= i < vs.len() && c.bad is None && c.toks == #[trigger] (receiver_item()(
                #[trigger] vs[i],
            ) + tail) implies #[trigger] receiver_step()(c) == (Cur { toks: tail, ..c }) by {
            assert(receiver_step()(c).toks =~= tail);
        }
    }
    lemma_segment_reads(
        cbor::enc(ts),
        RECEIVERS_VERSION,
        at_rest("channel receivers arity"),
        at_rest("channel receivers version"),
        MAX_RECEIVER_CHAINS as nat,
        Error::SizeLimitExceeded("channel receiver chains"),
        vs,
        receiver_item(),
        receiver_step(),
    );
}

// ---- what an entry is --------------------------------------------------------

/// What a sender-key message begins with.
pub const GROUP_MSG_SIGN_DOMAIN: &'static str = "vox/group-msg/v1";

/// What a log entry carries.
#[derive(Debug, Clone, Copy, PartialEq, Eq, Structural)]
pub enum EntryKind {
    /// A sender-key message.
    Content,
    /// A governance fact.
    Governance,
}

/// Whether a payload begins as a sender-key message does.
pub open spec fn is_group_message(payload: Seq<u8>) -> bool {
    vstd::utf8::encode_utf8(GROUP_MSG_SIGN_DOMAIN@).is_prefix_of(payload)
}

/// The kind of a payload, or `None` where it is neither. `framed` says whether it is a
/// struct-tagged frame.
pub open spec fn payload_kind(payload: Seq<u8>, framed: bool) -> Option<EntryKind> {
    if is_group_message(payload) {
        Some(EntryKind::Content)
    } else if framed {
        Some(EntryKind::Governance)
    } else {
        None
    }
}

/// Classifies a log entry by its payload. Anything that is neither a group message nor
/// a struct-tagged frame is refused rather than treated as content.
pub fn classify_payload(payload: &[u8], framed: bool) -> (r: Result<EntryKind, Error>)
    ensures
        match r {
            Ok(k) => payload_kind(payload@, framed) == Some(k),
            Err(e) => payload_kind(payload@, framed) is None && e == at_rest(
                "entry payload is neither a group message nor a governance struct",
            ),
        },
{
    let domain: &[u8] = GROUP_MSG_SIGN_DOMAIN.as_bytes();
    if domain.len() <= payload.len() && hash::same_bytes(
        domain,
        vstd::slice::slice_subrange(payload, 0, domain.len()),
    ) {
        return Ok(EntryKind::Content);
    }
    if framed {
        return Ok(EntryKind::Governance);
    }
    Err(Error::MalformedAtRest("entry payload is neither a group message nor a governance struct"))
}

} // verus!
