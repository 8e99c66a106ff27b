//! What holds of a sweep over a board: it loses nobody, admits nobody without evidence, and
//! does not end before everybody with evidence is admitted.

use vstd::prelude::*;

use crate::actor::admission::{self, BoardRecord, Sweep};
use crate::channel::segments::MAX_AUTHORS;
use crate::channel::state::{Admission, ChannelState};
use crate::hash::Digest32;

verus! {

/// Whether a record's evidence holds up among some authors: it is the creator's, or one of
/// them signed its witness and that verifies.
pub open spec fn evident(known: Map<Seq<u8>, Seq<u8>>, creator: Digest32, r: BoardRecord) -> bool {
    match r.admission {
        Admission::Creator => r.key->Ok_0.fingerprint == creator,
        Admission::Witnessed(w) => known.contains_key(w.witness_id@) && r.witness is Ok,
    }
}

/// Whether one map has all of another.
pub open spec fn extends(after: Map<Seq<u8>, Seq<u8>>, before: Map<Seq<u8>, Seq<u8>>) -> bool {
    forall|k: Seq<u8>| #[trigger]
        before.contains_key(k) ==> after.contains_key(k) && after[k] == before[k]
}

/// Whether everybody who was gained came by a usable record with evidence.
pub open spec fn gained_by_evidence(
    after: Map<Seq<u8>, Seq<u8>>,
    before: Map<Seq<u8>, Seq<u8>>,
    creator: Digest32,
    records: Seq<BoardRecord>,
) -> bool {
    forall|k: Seq<u8>| #[trigger]
        after.contains_key(k) && !before.contains_key(k) ==> exists|i: int|
            {
                &&& 0 <= i < records.len()
                &&& admission::usable(#[trigger] records[i])
                &&& records[i].key->Ok_0.fingerprint@ == k
                &&& records[i].key->Ok_0.bytes@ == after[k]
                &&& evident(after, creator, records[i])
            }
}

/// Whether two sweeps agree in who is admitted, and the later one's books follow.
spec fn follows(t: Sweep, s: Sweep, creator: Digest32, records: Seq<BoardRecord>) -> bool {
    &&& extends(t.known, s.known)
    &&& gained_by_evidence(t.known, s.known, creator, records)
    &&& t.admitted - s.admitted == t.count - s.count
    &&& t.admitted - s.admitted == t.pages.len() - s.pages.len()
    &&& t.admitted >= s.admitted
    &&& t.admitted == s.admitted ==> t.known == s.known
}

proof fn lemma_follows(u: Sweep, t: Sweep, s: Sweep, creator: Digest32, records: Seq<BoardRecord>)
    requires
        follows(u, t, creator, records),
        follows(t, s, creator, records),
    ensures
        follows(u, s, creator, records),
{
    assert forall|k: Seq<u8>| #[trigger] u.known.contains_key(k) && !s.known.contains_key(
        k,
    ) implies exists|i: int|
        {
            &&& 0 <= i < records.len()
            &&& admission::usable(#[trigger] records[i])
            &&& records[i].key->Ok_0.fingerprint@ == k
            &&& records[i].key->Ok_0.bytes@ == u.known[k]
            &&& evident(u.known, creator, records[i])
        } by {
        if t.known.contains_key(k) {
            let i = choose|i: int|
                {
                    &&& 0 <= i < records.len()
                    &&& admission::usable(#[trigger] records[i])
                    &&& records[i].key->Ok_0.fingerprint@ == k
                    &&& records[i].key->Ok_0.bytes@ == t.known[k]
                    &&& evident(t.known, creator, records[i])
                };
            assert(admission::usable(records[i]));
            assert(evident(u.known, creator, records[i]));
        }
    }
}

proof fn lemma_look(
    s: Sweep,
    creator: Digest32,
    records: Seq<BoardRecord>,
    quota: int,
    at: int,
)
    requires
        0 <= at < records.len(),
    ensures
        follows(
            admission::looked(s, creator, records, quota, at),
            s,
            creator,
            records,
        ),
{
    let t = admission::looked(s, creator, records, quota, at);
    let r = records[at];
    if s.admitted < quota && admission::verdict(s, creator, r) is Admit {
        let fp = r.key->Ok_0.fingerprint@;
        assert forall|k: Seq<u8>| #[trigger] t.known.contains_key(k) && !s.known.contains_key(
            k,
        ) implies exists|i: int|
            {
                &&& 0 <= i < records.len()
                &&& admission::usable(#[trigger] records[i])
                &&& records[i].key->Ok_0.fingerprint@ == k
                &&& records[i].key->Ok_0.bytes@ == t.known[k]
                &&& evident(t.known, creator, records[i])
            } by {
            assert(k == fp);
            assert(admission::usable(records[at]));
            assert(evident(t.known, creator, records[at]));
        }
    }
}

/// Whether every record is among those kept or pending, or there is nothing to do about it.
spec fn accounted(
    known: Map<Seq<u8>, Seq<u8>>,
    records: Seq<BoardRecord>,
    kept: Seq<int>,
    pending: Seq<int>,
    k: int,
) -> bool {
    forall|i: int|
        0 <= i < records.len() ==> {
            ||| kept.contains(i)
            ||| exists|j: int| k <= j < pending.len() && pending[j] == i
            ||| admission::usable(#[trigger] records[i]) ==> known.contains_key(
                records[i].key->Ok_0.fingerprint@,
            )
        }
}

spec fn in_range(kept: Seq<int>, n: int) -> bool {
    forall|j: int| 0 <= j < kept.len() ==> 0 <= #[trigger] kept[j] < n
}

/// Whether no record that is kept can be admitted where a sweep is as far as `s`.
spec fn stuck(s: Sweep, creator: Digest32, records: Seq<BoardRecord>) -> bool {
    forall|j: int|
        0 <= j < s.kept.len() ==> !(admission::verdict(s, creator, records[#[trigger] s.kept[j]])
            is Admit)
}

proof fn lemma_pass(
    s: Sweep,
    creator: Digest32,
    records: Seq<BoardRecord>,
    quota: int,
    pending: Seq<int>,
    k: nat,
)
    requires
        k <= pending.len(),
        in_range(pending, records.len() as int),
        accounted(s.known, records, Seq::empty(), pending, 0),
    ensures
        ({
            let t = admission::passed(s, creator, records, quota, pending, k);
            &&& follows(t, s, creator, records)
            &&& in_range(t.kept, records.len() as int)
            &&& accounted(t.known, records, t.kept, pending, k as int)
            &&& t.admitted == s.admitted && s.admitted < quota ==> stuck(t, creator, records)
        }),
    decreases k,
{
    let t = admission::passed(s, creator, records, quota, pending, k);
    if k == 0 {
        assert(t.kept =~= Seq::empty());
    } else {
        let less = (k - 1) as nat;
        lemma_pass(s, creator, records, quota, pending, less);
        let u = admission::passed(s, creator, records, quota, pending, less);
        let at = pending[k - 1];
        lemma_look(u, creator, records, quota, at);
        lemma_follows(t, u, s, creator, records);
        assert forall|i: int| 0 <= i < records.len() implies {
            ||| t.kept.contains(i)
            ||| exists|j: int| k <= j < pending.len() && pending[j] == i
            ||| admission::usable(#[trigger] records[i]) ==> t.known.contains_key(
                records[i].key->Ok_0.fingerprint@,
            )
        } by {
            if u.kept.contains(i) {
                let j = u.kept.index_of(i);
                assert(t.kept[j] == i);
            } else if i == at {
                if t.kept.len() > u.kept.len() {
                    assert(t.kept[u.kept.len() as int] == at);
                }
            } else if exists|j: int| k - 1 <= j < pending.len() && pending[j] == i {
                let j = choose|j: int| k - 1 <= j < pending.len() && pending[j] == i;
                assert(k <= j);
            }
        }
        assert forall|j: int| 0 <= j < t.kept.len() implies 0 <= #[trigger] t.kept[j]
            < records.len() by {
            if j < u.kept.len() {
                assert(t.kept[j] == u.kept[j]);
            }
        }
        if t.admitted == s.admitted && s.admitted < quota {
            assert(u.admitted == s.admitted);
            assert(t.known == u.known && t.count == u.count);
            assert forall|j: int| 0 <= j < t.kept.len() implies !(admission::verdict(
                t,
                creator,
                records[#[trigger] t.kept[j]],
            ) is Admit) by {
                if j < u.kept.len() {
                    assert(t.kept[j] == u.kept[j]);
                    assert(!(admission::verdict(u, creator, records[u.kept[j]]) is Admit));
                } else {
                    assert(t.kept[j] == at);
                }
            }
        }
    }
}

proof fn lemma_sweep(s: Sweep, creator: Digest32, records: Seq<BoardRecord>, quota: int)
    requires
        in_range(s.kept, records.len() as int),
        accounted(s.known, records, Seq::empty(), s.kept, 0),
    ensures
        ({
            let end = admission::swept(s, creator, records, quota);
            &&& follows(end, s, creator, records)
            &&& end.admitted < quota ==> {
                &&& in_range(end.kept, records.len() as int)
                &&& accounted(end.known, records, end.kept, Seq::empty(), 0)
                &&& stuck(end, creator, records)
            }
        }),
    decreases
            if s.admitted < quota {
                quota - s.admitted
            } else {
                0
            },
{
    if s.admitted < quota {
        lemma_pass(s, creator, records, quota, s.kept, s.kept.len());
        let next = admission::passed(s, creator, records, quota, s.kept, s.kept.len());
        assert(accounted(next.known, records, next.kept, Seq::empty(), 0)) by {
            assert forall|i: int| 0 <= i < records.len() implies {
                ||| next.kept.contains(i)
                ||| exists|j: int| 0 <= j < Seq::<int>::empty().len() && Seq::<int>::empty()[j] == i
                ||| admission::usable(#[trigger] records[i]) ==> next.known.contains_key(
                    records[i].key->Ok_0.fingerprint@,
                )
            } by {}
        }
        if next.admitted > s.admitted {
            assert(accounted(next.known, records, Seq::empty(), next.kept, 0)) by {
                assert forall|i: int| 0 <= i < records.len() implies {
                    ||| Seq::<int>::empty().contains(i)
                    ||| exists|j: int| 0 <= j < next.kept.len() && next.kept[j] == i
                    ||| admission::usable(#[trigger] records[i]) ==> next.known.contains_key(
                        records[i].key->Ok_0.fingerprint@,
                    )
                } by {
                    if next.kept.contains(i) {
                        let j = next.kept.index_of(i);
                        assert(next.kept[j] == i);
                    }
                }
            }
            lemma_sweep(next, creator, records, quota);
            lemma_follows(
                admission::swept(next, creator, records, quota),
                next,
                s,
                creator,
                records,
            );
        }
    }
}

proof fn lemma_unswept(ch: ChannelState, records: Seq<BoardRecord>)
    ensures
        ({
            let s = admission::unswept(ch, records);
            &&& in_range(s.kept, records.len() as int)
            &&& accounted(s.known, records, Seq::empty(), s.kept, 0)
        }),
{
    let s = admission::unswept(ch, records);
    assert forall|i: int| 0 <= i < records.len() implies {
        ||| Seq::<int>::empty().contains(i)
        ||| exists|j: int| 0 <= j < s.kept.len() && s.kept[j] == i
        ||| admission::usable(#[trigger] records[i]) ==> s.known.contains_key(
            records[i].key->Ok_0.fingerprint@,
        )
    } by {
        assert(s.kept[i] == i);
    }
}

/// A sweep loses nobody and replaces no key; everybody whom it admits came by a record that
/// proves its key, and is the creator or was witnessed by an author; and as many are counted
/// and written as were admitted.
pub proof fn law_sweep_admits_by_evidence_alone(
    ch: ChannelState,
    records: Seq<BoardRecord>,
    creator: Digest32,
    quota: int,
)
    ensures
        ({
            let end = admission::swept(
                admission::unswept(ch, records),
                creator,
                records,
                quota,
            );
            &&& extends(end.known, admission::keys_of(ch))
            &&& gained_by_evidence(end.known, admission::keys_of(ch), creator, records)
            &&& end.admitted >= 0
            &&& end.pages.len() == end.admitted
            &&& end.count == ch.authors.rows().len() + end.admitted
        }),
{
    lemma_unswept(ch, records);
    lemma_sweep(admission::unswept(ch, records), creator, records, quota);
}

/// A sweep ends with everybody admitted whose evidence holds up, in whatever order the board
/// handed the records over and however long a chain of witnesses is, unless the quota or the
/// places are used up.
pub proof fn law_sweep_runs_to_the_end(
    ch: ChannelState,
    records: Seq<BoardRecord>,
    creator: Digest32,
    quota: int,
    i: int,
)
    requires
        0 <= i < records.len(),
        admission::usable(records[i]),
    ensures
        ({
            let end = admission::swept(
                admission::unswept(ch, records),
                creator,
                records,
                quota,
            );
            end.admitted < quota && end.count < MAX_AUTHORS && evident(
                end.known,
                creator,
                records[i],
            ) ==> end.known.contains_key(records[i].key->Ok_0.fingerprint@)
        }),
{
    lemma_unswept(ch, records);
    let s = admission::unswept(ch, records);
    lemma_sweep(s, creator, records, quota);
    let end = admission::swept(s, creator, records, quota);
    if end.admitted < quota && end.kept.contains(i) {
        let j = end.kept.index_of(i);
        assert(end.kept[j] == i);
        assert(!(admission::verdict(end, creator, records[end.kept[j]]) is Admit));
    }
}

} // verus!
