//! Admitting the members that a board lists, on the evidence that their records carry.

use vstd::prelude::*;

use crate::cbor;
use crate::channel::ops;
use crate::channel::segments::{self, MAX_AUTHORS, SEG_AUTHORS};
use crate::channel::state::{self, Admission, ChannelState, SegmentKind, SegmentWrite};
use crate::error::Error;
use crate::hash::{self, Digest32};
use crate::identity::CompositePublicKey;
use crate::table::{self, Key};

verus! {

/// How many members one sweep of a board may admit. A witness makes an admission
/// attributable, not impossible: without a bound one compromised member could use up the
/// author table.
pub const MAX_ADMISSIONS_PER_SWEEP: usize = 8;

/// A member's record on a board: what the rules read of it.
#[derive(Debug, PartialEq, Eq)]
pub struct BoardRecord {
    /// The key it carries, where that decodes.
    pub key: Result<CompositePublicKey, Error>,
    /// Whether the record verifies under that key.
    pub verified: bool,
    /// How its author says it came to be a member.
    pub admission: Admission,
    /// Whether the witness verifies, for this channel, this epoch and this key, under
    /// the key of the member that it names as its signer.
    pub witness: Result<(), Error>,
}

/// Whether what the records carry as keys are keys.
pub open spec fn carry_keys(records: Seq<BoardRecord>) -> bool {
    forall|i: int|
        0 <= i < records.len() ==> ((#[trigger] records[i]).key matches Ok(k) ==> k.wf())
}

/// Whether a record proves possession of the key it carries.
pub open spec fn usable(r: BoardRecord) -> bool {
    r.key is Ok && r.verified
}

/// Why a usable record does not admit its author to a channel as it stands, or `None`
/// where it does, or the author is admitted already.
pub open spec fn record_fault(ch: ChannelState, r: BoardRecord) -> Option<Error> {
    state::or_fault(
        ops::evidence_fault(ch, r.key->Ok_0, r.admission, r.witness),
        ops::admit_fault(ch.authors, r.key->Ok_0),
    )
}

/// Whether a record is evidence for the author under fingerprint `k` in a channel: it
/// carries that key, proves possession of it, and either the genesis names it as the
/// creator or an author of the channel witnessed its join.
pub open spec fn vouches(ch: ChannelState, r: BoardRecord, k: Seq<u8>) -> bool {
    &&& usable(r)
    &&& r.key->Ok_0.fingerprint@ == k
    &&& ch.authors.map().contains_key(k)
    &&& ch.authors.map()[k].is_same(&r.key->Ok_0)
    &&& match r.admission {
        Admission::Creator => ch.genesis.creator.fingerprint@ == k,
        Admission::Witnessed(w) => ch.authors.has(w.witness_id@) && r.witness is Ok,
    }
}

/// Whether nothing of a channel but its authors differs, and none of those was lost or
/// replaced.
pub open spec fn only_gained_authors(ch: ChannelState, before: ChannelState) -> bool {
    &&& ch == (ChannelState { authors: ch.authors, ..before })
    &&& forall|k: Seq<u8>| #[trigger]
        before.authors.map().contains_key(k) ==> ch.authors.map().contains_key(k)
            && ch.authors.map()[k] == before.authors.map()[k]
}

/// Whether every author that a channel gained is vouched for by one of some records.
pub open spec fn all_vouched(ch: ChannelState, before: ChannelState, records: Seq<BoardRecord>) -> bool {
    forall|k: Seq<u8>| #[trigger]
        ch.authors.map().contains_key(k) && !before.authors.map().contains_key(k) ==> exists|i: int|
            0 <= i < records.len() && vouches(ch, #[trigger] records[i], k)
}

/// The writes of these authors segments.
pub open spec fn authors_writes(pages: Seq<Seq<u8>>) -> Seq<(SegmentKind, u64, Seq<u8>)> {
    Seq::new(pages.len(), |i: int| (SegmentKind::KeyMaterial, SEG_AUTHORS, pages[i]))
}

/// Whether there is nothing left to do about a record: it is not usable, or its author is
/// admitted.
pub open spec fn settled(ch: ChannelState, r: BoardRecord) -> bool {
    usable(r) ==> ch.authors.has(r.key->Ok_0.fingerprint@)
}

/// Whether a record waits among some others.
pub open spec fn waits(pending: Seq<usize>, from: int, i: int) -> bool {
    exists|j: int| from <= j < pending.len() && #[trigger] pending[j] == i
}

/// The keys of a channel's authors, by fingerprint.
pub open spec fn keys_of(ch: ChannelState) -> Map<Seq<u8>, Seq<u8>> {
    ch.authors.map().map_values(|k: CompositePublicKey| k.bytes@)
}

/// The authors with these keys, in fingerprint order.
pub open spec fn key_rows(known: Map<Seq<u8>, Seq<u8>>) -> Seq<(Digest32, Seq<u8>)> {
    choose|rows: Seq<(Digest32, Seq<u8>)>|
        table::ascending(rows) && table::map_of(rows) == known
}

/// The authors segment for these keys.
pub open spec fn authors_page(known: Map<Seq<u8>, Seq<u8>>) -> Seq<u8> {
    let rows = key_rows(known);
    cbor::enc(
        segments::authors_toks(Seq::new(rows.len(), |i: int| (rows[i].0@, rows[i].1))),
    )
}

/// The rows of an authors table with nothing of each key but its bytes.
spec fn bare(rows: Seq<(Digest32, CompositePublicKey)>) -> Seq<(Digest32, Seq<u8>)> {
    Seq::new(rows.len(), |i: int| (rows[i].0, rows[i].1.bytes@))
}

proof fn lemma_bare(rows: Seq<(Digest32, CompositePublicKey)>)
    requires
        table::ascending(rows),
    ensures
        table::ascending(bare(rows)),
        table::map_of(bare(rows)) == table::map_of(rows).map_values(
            |k: CompositePublicKey| k.bytes@,
        ),
    decreases rows.len(),
{
    let bs = bare(rows);
    assert forall|i: int, j: int| 0 <= i < j < bs.len() implies hash::bytes_before(
        (#[trigger] bs[i]).0.key_bytes(),
        (#[trigger] bs[j]).0.key_bytes(),
    ) by {
        assert(rows[i].0 == bs[i].0 && rows[j].0 == bs[j].0);
    }
    if rows.len() > 0 {
        let front = rows.drop_last();
        assert forall|i: int, j: int| 0 <= i < j < front.len() implies hash::bytes_before(
            (#[trigger] front[i]).0.key_bytes(),
            (#[trigger] front[j]).0.key_bytes(),
        ) by {
            assert(front[i] == rows[i] && front[j] == rows[j]);
        }
        lemma_bare(front);
        assert(bs.drop_last() =~= bare(front));
        assert(bs.last() == (rows.last().0, rows.last().1.bytes@));
    }
    assert(table::map_of(bs) =~= table::map_of(rows).map_values(
        |k: CompositePublicKey| k.bytes@,
    ));
}

/// What is written of an authors table depends on the keys alone.
proof fn lemma_authors_page(ch: ChannelState)
    requires
        ch.authors.wf(),
    ensures
        ops::authors_segment(ch.authors) == authors_page(keys_of(ch)),
{
    let rows = ch.authors.rows();
    lemma_bare(rows);
    assert(table::ascending(bare(rows)) && table::map_of(bare(rows)) == keys_of(ch));
    let picked = key_rows(keys_of(ch));
    table::law_rows_are_canonical(picked, bare(rows));
    assert(Seq::new(picked.len(), |i: int| (picked[i].0@, picked[i].1))
        =~= segments::authors_view(rows));
}

/// What becomes of a record that is looked at.
pub enum Verdict {
    /// There is nothing to do about it, now or later.
    Drop,
    /// Its evidence does not hold up yet.
    Keep,
    /// Its author is admitted.
    Admit,
}

/// How far a sweep is: the keys of the authors, how many there are, how many of them the
/// sweep admitted, which records it keeps for the next pass, and what it wrote.
#[verifier::ext_equal]
pub struct Sweep {
    /// The keys, by fingerprint.
    pub known: Map<Seq<u8>, Seq<u8>>,
    /// How many there are.
    pub count: int,
    /// How many were admitted.
    pub admitted: int,
    /// The records that are kept.
    pub kept: Seq<int>,
    /// The authors segments that were written, one for each admission.
    pub pages: Seq<Seq<u8>>,
}

/// What becomes of a record where a sweep is as far as `s`.
pub open spec fn verdict(s: Sweep, creator: Digest32, r: BoardRecord) -> Verdict {
    let key = r.key->Ok_0;
    let evident = match r.admission {
        Admission::Creator => creator == key.fingerprint,
        Admission::Witnessed(w) => s.known.contains_key(w.witness_id@) && r.witness is Ok,
    };
    if !usable(r) {
        Verdict::Drop
    } else if !evident {
        Verdict::Keep
    } else if s.known.contains_key(key.fingerprint@) {
        if s.known[key.fingerprint@] == key.bytes@ {
            Verdict::Drop
        } else {
            Verdict::Keep
        }
    } else if s.count >= MAX_AUTHORS {
        Verdict::Keep
    } else {
        Verdict::Admit
    }
}

/// A sweep once it has looked at one more record. Where the quota is used up, the record is
/// kept as it is.
pub open spec fn looked(
    s: Sweep,
    creator: Digest32,
    records: Seq<BoardRecord>,
    quota: int,
    at: int,
) -> Sweep {
    let r = records[at];
    if s.admitted >= quota {
        Sweep { kept: s.kept.push(at), ..s }
    } else {
        match verdict(s, creator, r) {
            Verdict::Drop => s,
            Verdict::Keep => Sweep { kept: s.kept.push(at), ..s },
            Verdict::Admit => {
                let known = s.known.insert(r.key->Ok_0.fingerprint@, r.key->Ok_0.bytes@);
                Sweep {
                    known,
                    count: s.count + 1,
                    admitted: s.admitted + 1,
                    pages: s.pages.push(authors_page(known)),
                    ..s
                }
            },
        }
    }
}

/// A sweep once it has looked at the first `k` of the pending records, in order.
pub open spec fn passed(
    s: Sweep,
    creator: Digest32,
    records: Seq<BoardRecord>,
    quota: int,
    pending: Seq<int>,
    k: nat,
) -> Sweep
    decreases k,
{
    if k == 0 {
        Sweep { kept: Seq::empty(), ..s }
    } else {
        looked(
            passed(s, creator, records, quota, pending, (k - 1) as nat),
            creator,
            records,
            quota,
            pending[k - 1],
        )
    }
}

/// A sweep once passes over what is left no longer admit anybody, or the quota is used up.
pub open spec fn swept(s: Sweep, creator: Digest32, records: Seq<BoardRecord>, quota: int) -> Sweep
    decreases
        if s.admitted < quota {
            quota - s.admitted
        } else {
            0
        },
{
    if s.admitted >= quota {
        s
    } else {
        let next = passed(s, creator, records, quota, s.kept, s.kept.len());
        if next.admitted <= s.admitted {
            next
        } else {
            swept(next, creator, records, quota)
        }
    }
}

/// A sweep at its beginning: every record is to be looked at.
pub open spec fn unswept(ch: ChannelState, records: Seq<BoardRecord>) -> Sweep {
    Sweep {
        known: keys_of(ch),
        count: ch.authors.rows().len() as int,
        admitted: 0,
        kept: Seq::new(records.len(), |i: int| i),
        pages: Seq::empty(),
    }
}

/// The same places as numbers.
pub open spec fn places(v: Seq<usize>) -> Seq<int> {
    v.map_values(|i: usize| i as int)
}

proof fn lemma_places_push(v: Seq<usize>, i: usize)
    ensures
        places(v.push(i)) == places(v).push(i as int),
{
    assert(places(v.push(i)) =~= places(v).push(i as int));
}

/// Admits as many of a board's members as their evidence allows, to a fixpoint. A witness
/// is evidence only where its signer is admitted already, so order matters, and a board
/// hands its records over in any; passes are repeated until one admits nobody, which
/// resolves a chain of any length. `quota` bounds the whole call.
///
/// The result is how many were admitted, with the writes that make them last.
pub fn admit_board_records(channel: &mut ChannelState, records: &Vec<BoardRecord>, quota: usize) -> (r: (
    usize,
    Vec<SegmentWrite>,
))
    requires
        old(channel).wf(),
        carry_keys(records@),
    ensures
        final(channel).wf(),
        only_gained_authors(*final(channel), *old(channel)),
        all_vouched(*final(channel), *old(channel), records@),
        r.0 <= quota,
        ({
            let end = swept(
                unswept(*old(channel), records@),
                old(channel).genesis.creator.fingerprint,
                records@,
                quota as int,
            );
            &&& r.0 == end.admitted
            &&& keys_of(*final(channel)) == end.known
            &&& state::writes_view(r.1@) == authors_writes(end.pages)
        }),
        final(channel).authors.rows().len() == old(channel).authors.rows().len() + r.0,
        r.1@.len() == r.0,
        r.0 < quota ==> forall|i: int|
            0 <= i < records@.len() && usable(#[trigger] records@[i]) && record_fault(
                *final(channel),
                records@[i],
            ) is None ==> final(channel).authors.has(records@[i].key->Ok_0.fingerprint@),
{
    let mut writes: Vec<SegmentWrite> = Vec::new();
    let mut admitted: usize = 0;
    let mut pending: Vec<usize> = Vec::new();
    let ghost start = *channel;
    let mut n: usize = 0;
    while n < records.len()
        invariant
            n <= records@.len(),
            pending@.len() == n,
            forall|j: int| 0 <= j < n ==> #[trigger] pending@[j] == j,
        decreases records@.len() - n,
    {
        pending.push(n);
        n = n + 1;
    }
    proof {
        assert forall|i: int| 0 <= i < records@.len() implies #[trigger] waits(
            pending@,
            0,
            i,
        ) by {
            assert(pending@[i] == i);
        }
    }
    let ghost creator = channel.genesis.creator.fingerprint;
    let ghost goal = swept(unswept(start, records@), creator, records@, quota as int);
    assert(places(pending@) =~= unswept(start, records@).kept);
    let ghost mut pages: Seq<Seq<u8>> = Seq::empty();
    assert(state::writes_view(writes@) =~= authors_writes(pages));
    let mut done: bool = false;
    while admitted < quota && !done
        invariant
            channel.wf(),
            carry_keys(records@),
            start == *old(channel),
            creator == start.genesis.creator.fingerprint,
            done ==> goal.admitted == admitted && goal.known == keys_of(*channel) && goal.pages == pages,
            !done ==> goal == swept(
                so_far(*channel, admitted as int, pending@, pages),
                creator,
                records@,
                quota as int,
            ),
            only_gained_authors(*channel, start),
            all_vouched(*channel, start, records@),
            admitted <= quota,
            channel.authors.rows().len() == start.authors.rows().len() + admitted,
            writes@.len() == admitted,
            state::writes_view(writes@) == authors_writes(pages),
            forall|j: int| 0 <= j < pending@.len() ==> (#[trigger] pending@[j]) < records@.len(),
            forall|i: int|
                0 <= i < records@.len() ==> settled(*channel, #[trigger] records@[i]) || waits(
                    pending@,
                    0,
                    i,
                ),
            done ==> forall|j: int|
                0 <= j < pending@.len() ==> record_fault(
                    *channel,
                    records@[#[trigger] pending@[j] as int],
                ) is Some,
        decreases
            quota - admitted,
            if done {
                0int
            } else {
                1
            },
    {
        let before: usize = admitted;
        let ghost entry = *channel;
        let ghost first = so_far(*channel, admitted as int, pending@, pages);
        let ghost todo = places(pending@);
        let mut kept: Vec<usize> = Vec::new();
        let mut j: usize = 0;
        assert(places(kept@) =~= Seq::empty());
        while j < pending.len()
            invariant
                j <= pending@.len(),
                channel.wf(),
                carry_keys(records@),
                creator == start.genesis.creator.fingerprint,
                todo == places(pending@),
                so_far(*channel, admitted as int, kept@, pages) == passed(
                    first,
                    creator,
                    records@,
                    quota as int,
                    todo,
                    j as nat,
                ),
                before < quota,
                before <= admitted <= quota,
                only_gained_authors(*channel, start),
                all_vouched(*channel, start, records@),
                channel.authors.rows().len() == start.authors.rows().len() + admitted,
                writes@.len() == admitted,
                state::writes_view(writes@) == authors_writes(pages),
                forall|p: int| 0 <= p < pending@.len() ==> (#[trigger] pending@[p]) < records@.len(),
                forall|p: int| 0 <= p < kept@.len() ==> (#[trigger] kept@[p]) < records@.len(),
                forall|i: int|
                    0 <= i < records@.len() ==> settled(*channel, #[trigger] records@[i]) || waits(
                        kept@,
                        0,
                        i,
                    ) || waits(pending@, j as int, i),
                admitted == before ==> *channel == entry,
                admitted == before ==> forall|p: int|
                    0 <= p < kept@.len() ==> record_fault(
                        *channel,
                        records@[#[trigger] kept@[p] as int],
                    ) is Some,
            decreases pending@.len() - j,
        {
            let at: usize = pending[j];
            let ghost sofar = *channel;
            let ghost kept_before = kept@;
            let ghost seen = so_far(*channel, admitted as int, kept@, pages);
            let mut keep: bool = false;
            if admitted >= quota {
                keep = true;
            } else {
                let record: &BoardRecord = &records[at];
                match &record.key {
                    Ok(key) => {
                        if record.verified {
                            match channel.admit_from_board(
                                key,
                                &record.admission,
                                copy_result(&record.witness),
                            ) {
                                Ok(Some(w)) => {
                                    proof {
                                        lemma_gained(sofar, *channel, start, records@, at as int, w);
                                        lemma_keys_gained(sofar, *channel, *key, w);
                                        lemma_authors_page(*channel);
                                        let page = authors_page(keys_of(*channel));
                                        lemma_writes_push(writes@, w, pages, page);
                                        pages = pages.push(page);
                                    }
                                    writes.push(w);
                                    admitted = admitted + 1;
                                },
                                Ok(None) => {},
                                Err(_) => {
                                    keep = true;
                                },
                            }
                        }
                    },
                    Err(_) => {},
                }
            }
            if keep {
                proof {
                    lemma_places_push(kept@, at);
                }
                kept.push(at);
            }
            proof {
                assert(todo[j as int] == at);
                assert(so_far(*channel, admitted as int, kept@, pages) =~= looked(
                    seen,
                    creator,
                    records@,
                    quota as int,
                    at as int,
                ));
            }
            j = j + 1;
            proof {
                assert forall|i: int| 0 <= i < records@.len() implies settled(
                    *channel,
                    #[trigger] records@[i],
                ) || waits(kept@, 0, i) || waits(pending@, j as int, i) by {
                    if settled(sofar, records@[i]) {
                        if usable(records@[i]) {
                            assert(sofar.authors.map().contains_key(
                                records@[i].key->Ok_0.fingerprint@,
                            ));
                        }
                    } else if waits(kept_before, 0, i) {
                        let p = choose|p: int| 0 <= p < kept_before.len()
                            && #[trigger] kept_before[p] == i;
                        assert(kept@[p] == i);
                    } else {
                        let p = choose|p: int|
                            j - 1 <= p < pending@.len() && #[trigger] pending@[p] == i;
                        if p == j - 1 {
                            assert(i == at);
                            if keep {
                                assert(kept@[kept@.len() - 1] == i);
                            }
                        } else {
                            assert(waits(pending@, j as int, i));
                        }
                    }
                }
            }
        }
        pending = kept;
        if admitted == before {
            done = true;
        }
    }
    assert(admitted >= quota ==> goal.admitted == admitted && goal.known == keys_of(*channel)
        && goal.pages == pages);
    proof {
        if admitted < quota {
            assert forall|i: int|
                0 <= i < records@.len() && usable(#[trigger] records@[i]) && record_fault(
                    *channel,
                    records@[i],
                ) is None implies channel.authors.has(records@[i].key->Ok_0.fingerprint@) by {
                if !settled(*channel, records@[i]) {
                    let j = choose|j: int| 0 <= j < pending@.len() && #[trigger] pending@[j] == i;
                    assert(record_fault(*channel, records@[pending@[j] as int]) is Some);
                }
            }
        }
    }
    (admitted, writes)
}

fn copy_result(r: &Result<(), Error>) -> (s: Result<(), Error>)
    ensures
        s == *r,
{
    match r {
        Ok(done) => Ok(*done),
        Err(e) => Err(e.clone()),
    }
}

/// How far a sweep of a channel is.
spec fn so_far(
    ch: ChannelState,
    admitted: int,
    kept: Seq<usize>,
    pages: Seq<Seq<u8>>,
) -> Sweep {
    Sweep {
        known: keys_of(ch),
        count: ch.authors.rows().len() as int,
        admitted,
        kept: places(kept),
        pages,
    }
}

proof fn lemma_writes_push(
    writes: Seq<SegmentWrite>,
    w: SegmentWrite,
    pages: Seq<Seq<u8>>,
    page: Seq<u8>,
)
    requires
        state::writes_view(writes) == authors_writes(pages),
        ops::writes_key_material(w, SEG_AUTHORS, page),
    ensures
        state::writes_view(writes.push(w)) == authors_writes(pages.push(page)),
{
    assert(writes.len() == state::writes_view(writes).len());
    assert(pages.len() == authors_writes(pages).len());
    assert forall|i: int| 0 <= i < writes.len() + 1 implies #[trigger] state::writes_view(
        writes.push(w),
    )[i] == authors_writes(pages.push(page))[i] by {
        if i < writes.len() {
            assert(state::writes_view(writes)[i] == authors_writes(pages)[i]);
        }
    }
    assert(state::writes_view(writes.push(w)) =~= authors_writes(pages.push(page)));
}

proof fn lemma_keys_gained(
    sofar: ChannelState,
    ch: ChannelState,
    key: CompositePublicKey,
    w: SegmentWrite,
)
    requires
        ops::admitted(ch, sofar, key, Some(w)),
    ensures
        keys_of(ch) == keys_of(sofar).insert(key.fingerprint@, key.bytes@),
{
    let fp = key.fingerprint@;
    let now = ch.authors.map();
    let before = sofar.authors.map();
    assert(now.remove(fp) == before);
    assert forall|k: Seq<u8>| #[trigger] keys_of(ch).contains_key(k) <==> keys_of(sofar).insert(
        fp,
        key.bytes@,
    ).contains_key(k) by {
        if k != fp {
            assert(now.remove(fp).contains_key(k) == now.contains_key(k));
        }
    }
    assert forall|k: Seq<u8>| #[trigger] keys_of(ch).contains_key(k) implies keys_of(ch)[k]
        == keys_of(sofar).insert(fp, key.bytes@)[k] by {
        if k != fp {
            assert(now.remove(fp)[k] == now[k]);
        }
    }
    assert(keys_of(ch) =~= keys_of(sofar).insert(fp, key.bytes@));
}

proof fn lemma_gained(
    sofar: ChannelState,
    ch: ChannelState,
    start: ChannelState,
    records: Seq<BoardRecord>,
    at: int,
    w: SegmentWrite,
)
    requires
        0 <= at < records.len(),
        usable(records[at]),
        only_gained_authors(sofar, start),
        all_vouched(sofar, start, records),
        ops::evidence_fault(
            sofar,
            records[at].key->Ok_0,
            records[at].admission,
            records[at].witness,
        ) is None,
        ops::admitted(ch, sofar, records[at].key->Ok_0, Some(w)),
    ensures
        only_gained_authors(ch, sofar),
        only_gained_authors(ch, start),
        all_vouched(ch, start, records),
        settled(ch, records[at]),
{
    let fp = records[at].key->Ok_0.fingerprint@;
    let now = ch.authors.map();
    let old = sofar.authors.map();
    assert(now.remove(fp) == old);
    assert forall|k: Seq<u8>| #[trigger] old.contains_key(k) implies now.contains_key(k) && now[k]
        == old[k] by {
        assert(now.remove(fp).contains_key(k));
    }
    assert forall|k: Seq<u8>| #[trigger]
        now.contains_key(k) && !start.authors.map().contains_key(k) implies exists|i: int|
        0 <= i < records.len() && vouches(ch, #[trigger] records[i], k) by {
        if k == fp {
            assert(vouches(ch, records[at], k));
        } else {
            assert(now.remove(fp).contains_key(k));
            assert(old.contains_key(k));
            let i = choose|i: int| 0 <= i < records.len() && vouches(sofar, #[trigger] records[i], k);
            assert(vouches(ch, records[i], k));
        }
    }
}

} // verus!
