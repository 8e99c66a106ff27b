//! What a sync session leaves an anchor to do: every entry that it brought is filed,
//! also where the session itself failed. Nothing is read, because nothing can be.

use vstd::prelude::*;

use crate::anchor::copy::{self, AnchorState};
use crate::anchor::rest;
use crate::channel::log::{self, feed_find, feed_head};
use crate::channel::segments::{self, classify_payload, EntryKind};
use crate::channel::state::{self, LogEntry, SegmentKind, SegmentWrite};
use crate::channel::sync::{self, find_hash, sync_failure, SyncOutcome, WireError};
use crate::error::Error;
use crate::hash::Digest32;
use crate::lists::{self, next_number};

verus! {

/// The hash of the entry at one place of a feed, where there is one.
pub open spec fn hash_at(lg: Seq<LogEntry>, author: Digest32, seq: u64) -> Seq<Digest32> {
    match log::feed_at(lg, author, seq) {
        Some(i) => seq![lg[i].entry_hash],
        None => Seq::empty(),
    }
}

/// The hashes of a feed's entries past place `from` and up to place `to`, in order.
pub open spec fn hashes_in(lg: Seq<LogEntry>, author: Digest32, from: u64, to: u64) -> Seq<
    Digest32,
>
    decreases to,
{
    if to <= from {
        Seq::empty()
    } else {
        hashes_in(lg, author, from, (to - 1) as u64) + hash_at(lg, author, to)
    }
}

/// The hashes of the entries past the given heads, author by author, each feed in order.
/// An entry whose payload was pruned is among them.
pub open spec fn hashes_past(lg: Seq<LogEntry>, heads: Seq<(Digest32, u64)>) -> Seq<Digest32>
    decreases heads.len(),
{
    if heads.len() == 0 {
        Seq::empty()
    } else {
        let (author, head) = heads.last();
        hashes_past(lg, heads.drop_last()) + hashes_in(
            lg,
            author,
            head,
            log::max_seq(lg, author),
        )
    }
}

/// How far each known author's feed reaches, in fingerprint order.
pub open spec fn heads_of(st: AnchorState) -> Seq<(Digest32, u64)> {
    Seq::new(
        st.authors.rows().len(),
        |i: int| (st.authors.rows()[i].0, log::max_seq(st.log@, st.authors.rows()[i].0)),
    )
}

fn gather(lg: &Vec<LogEntry>, author: &Digest32, from: u64, to: u64, out: &mut Vec<Digest32>)
    ensures
        final(out)@ == old(out)@ + hashes_in(lg@, *author, from, to),
{
    let ghost before = out@;
    if to <= from {
        assert(before + hashes_in(lg@, *author, from, to) =~= before);
        return;
    }
    let mut seq: u64 = from;
    assert(before + hashes_in(lg@, *author, from, from) =~= before);
    while seq < to
        invariant
            from <= seq <= to,
            out@ == before + hashes_in(lg@, *author, from, seq),
        decreases to - seq,
    {
        seq = seq + 1;
        let ghost sofar = out@;
        match feed_find(lg, author, seq) {
            Some(i) => {
                out.push(lg[i].entry_hash);
            },
            None => {},
        }
        assert(out@ =~= sofar + hash_at(lg@, *author, seq));
        assert(out@ =~= before + hashes_in(lg@, *author, from, seq));
    }
}

/// A pass over what a session brought.
#[derive(Debug)]
pub struct AnchorPass {
    /// The hashes of the entries to file.
    pub arrived: Vec<Digest32>,
    /// How many are done.
    pub at: usize,
    /// What to report.
    pub out: SyncOutcome,
    /// Why the session failed, where it did.
    pub failure: Option<WireError>,
}

/// Whether an entry is a governance fact: it has its payload, and that is one.
pub open spec fn governs(entry: LogEntry, framed: bool) -> bool {
    match entry.payload {
        Some(p) => segments::payload_kind(p@, framed) == Some(EntryKind::Governance),
        None => false,
    }
}

/// Why an entry that arrived is not filed, or `None` where it is.
pub open spec fn filing_fault(lg: Seq<LogEntry>, h: Digest32, framed: bool) -> Option<Error> {
    match sync::by_hash(lg, h) {
        None => Some(Error::MalformedGovernance("synced entry vanished")),
        Some(i) => match lg[i].payload {
            Some(p) => state::unless(
                segments::payload_kind(p@, framed) is Some,
                log::unclassified(),
            ),
            None => None,
        },
    }
}

impl AnchorState {
    /// How far each known author's feed reaches. A session begins with this; a poisoned
    /// copy does not sync.
    pub fn begin_sync(&self) -> (r: Result<Vec<(Digest32, u64)>, Error>)
        ensures
            match r {
                Ok(heads) => !self.poisoned && heads@ == heads_of(*self),
                Err(e) => self.poisoned && e == copy::poisoned_error(),
            },
    {
        if self.poisoned {
            return Err(
                Error::Profile("anchored channel is poisoned after a failed persist; reopen it"),
            );
        }
        let mut out: Vec<(Digest32, u64)> = Vec::new();
        let mut i: usize = 0;
        while i < self.authors.len()
            invariant
                i <= self.authors.rows().len(),
                out@ == heads_of(*self).take(i as int),
            decreases self.authors.rows().len() - i,
        {
            let a: Digest32 = self.authors.row(i).0;
            out.push((a, feed_head(&self.log, &a)));
            assert(out@ =~= heads_of(*self).take(i + 1));
            i = i + 1;
        }
        assert(heads_of(*self).take(i as int) =~= heads_of(*self));
        Ok(out)
    }

    /// Whether a step of a session that began at `epoch` may go on with this copy.
    pub fn may_step(&self, epoch: u64) -> (r: Result<(), WireError>)
        ensures
            match r {
                Ok(_) => !self.poisoned && self.epoch == epoch,
                Err(WireError::TransportFailed) => self.poisoned,
                Err(WireError::EpochMismatch) => !self.poisoned && self.epoch != epoch,
                Err(_) => false,
            },
    {
        if self.poisoned {
            return Err(WireError::TransportFailed);
        }
        if self.epoch != epoch {
            return Err(WireError::EpochMismatch);
        }
        Ok(())
    }

    /// Takes up the entries that a session applied to the log, in the order in which it
    /// applied them. A session fails at the first entry by anybody whom the resolver does
    /// not know, so all of them are by admitted authors.
    pub fn apply_session(&mut self, entries: Vec<LogEntry>)
        requires
            old(self).wf(),
            state::by_authors(entries@, old(self).authors.map()),
        ensures
            final(self).wf(),
            *final(self) == (AnchorState { log: final(self).log, ..*old(self) }),
            final(self).log@ == old(self).log@ + entries@,
    {
        let mut entries: Vec<LogEntry> = entries;
        assert(state::by_authors(self.log@ + entries@, self.authors.map()));
        self.log.append(&mut entries);
    }
}

impl AnchorPass {
    /// What a pass keeps.
    pub open spec fn wf(&self) -> bool {
        &&& self.at <= self.arrived@.len()
        &&& self.out.governance <= self.at
        &&& self.out.rendered == 0
    }

    /// Begins to file what appeared past `heads`. A session that failed counts what
    /// arrived; it is reported only when everything that arrived is filed.
    pub fn start(
        st: &AnchorState,
        heads: &Vec<(Digest32, u64)>,
        session: Result<usize, WireError>,
    ) -> (p: AnchorPass)
        ensures
            p.wf(),
            p.at == 0,
            p.arrived@ == hashes_past(st.log@, heads@),
            p.out.applied == (match session {
                Ok(n) => n as nat,
                Err(_) => p.arrived@.len(),
            }),
            p.out.governance == 0,
            p.failure == (match session {
                Ok(_) => None,
                Err(code) => Some(code),
            }),
    {
        let mut arrived: Vec<Digest32> = Vec::new();
        let mut i: usize = 0;
        assert(heads@.take(0) =~= Seq::empty());
        while i < heads.len()
            invariant
                i <= heads@.len(),
                arrived@ == hashes_past(st.log@, heads@.take(i as int)),
            decreases heads@.len() - i,
        {
            let (author, head) = heads[i];
            proof {
                assert(heads@.take(i + 1).drop_last() =~= heads@.take(i as int));
                assert(heads@.take(i + 1).last() == heads@[i as int]);
            }
            let to: u64 = feed_head(&st.log, &author);
            gather(&st.log, &author, head, to, &mut arrived);
            i = i + 1;
        }
        assert(heads@.take(i as int) =~= heads@);
        let (applied, failure): (usize, Option<WireError>) = match session {
            Ok(n) => (n, None),
            Err(code) => (arrived.len(), Some(code)),
        };
        AnchorPass {
            arrived,
            at: 0,
            out: SyncOutcome { applied, governance: 0, rendered: 0 },
            failure,
        }
    }

    /// The write that files the next entry, and whether the entry is a governance fact;
    /// `None` once everything is filed. `framed` says whether the entry's payload is a
    /// struct-tagged frame.
    pub fn next_write(&self, st: &AnchorState, framed: bool) -> (r: Result<
        Option<(SegmentWrite, bool)>,
        Error,
    >)
        requires
            self.wf(),
        ensures
            match r {
                Ok(None) => self.at == self.arrived@.len(),
                Ok(Some((w, governance))) => {
                    let h = self.arrived@[self.at as int];
                    let entry = st.log@[sync::by_hash(st.log@, h)->Some_0];
                    &&& self.at < self.arrived@.len()
                    &&& filing_fault(st.log@, h, framed) is None
                    &&& w.kind == SegmentKind::AnchorLog
                    &&& w.id == st.next_log_id
                    &&& w.bytes@ == entry.wire@
                    &&& governance == governs(entry, framed)
                },
                Err(e) => {
                    &&& self.at < self.arrived@.len()
                    &&& filing_fault(st.log@, self.arrived@[self.at as int], framed) == Some(e)
                },
            },
    {
        if self.at == self.arrived.len() {
            return Ok(None);
        }
        let i: usize = match find_hash(&st.log, &self.arrived[self.at]) {
            Some(i) => i,
            None => {
                return Err(Error::MalformedGovernance("synced entry vanished"));
            },
        };
        let governance: bool = match &st.log[i].payload {
            Some(p) => match classify_payload(p.as_slice(), framed)? {
                EntryKind::Governance => true,
                EntryKind::Content => false,
            },
            None => false,
        };
        Ok(
            Some(
                (
                    SegmentWrite {
                        kind: SegmentKind::AnchorLog,
                        id: st.next_log_id,
                        bytes: vstd::slice::slice_to_vec(st.log[i].wire.as_slice()),
                    },
                    governance,
                ),
            ),
        )
    }

    /// Takes up how the write of the next entry went: the entry is filed and counted, or
    /// the copy is poisoned.
    pub fn filed(&mut self, st: &mut AnchorState, written: Result<(), Error>, governance: bool) -> (r:
        Result<(), Error>)
        requires
            old(self).wf(),
            old(st).wf(),
            old(self).at < old(self).arrived@.len(),
        ensures
            final(self).wf(),
            final(st).wf(),
            r == written,
            match written {
                Ok(_) => {
                    &&& *final(st) == (AnchorState {
                        next_log_id: lists::succ(old(st).next_log_id),
                        ..*old(st)
                    })
                    &&& *final(self) == (AnchorPass {
                        at: (old(self).at + 1) as usize,
                        out: SyncOutcome {
                            governance: if governance {
                                (old(self).out.governance + 1) as usize
                            } else {
                                old(self).out.governance
                            },
                            ..old(self).out
                        },
                        ..*old(self)
                    })
                },
                Err(_) => {
                    &&& *final(st) == (AnchorState { poisoned: true, ..*old(st) })
                    &&& *final(self) == *old(self)
                },
            },
    {
        let total: usize = self.arrived.len();
        assert(self.at < total);
        match st.persisted(written) {
            Err(e) => Err(e),
            Ok(done) => {
                st.next_log_id = next_number(st.next_log_id);
                if governance {
                    self.out.governance = self.out.governance + 1;
                }
                self.at = self.at + 1;
                Ok(done)
            },
        }
    }

    /// How it went, once everything that arrived is filed: only now is a failed session
    /// reported.
    pub fn finish(&self) -> (r: Result<SyncOutcome, Error>)
        requires
            self.wf(),
            self.at == self.arrived@.len(),
        ensures
            match self.failure {
                None => r == Ok::<SyncOutcome, Error>(self.out),
                Some(code) => r == Err::<SyncOutcome, Error>(sync::failure_of(code)),
            },
    {
        match self.failure {
            None => Ok(self.out),
            Some(code) => Err(sync_failure(code)),
        }
    }
}

/// The outcome of a session that was run step by step: a failure to file anything
/// (`fatal`) is reported ahead of what the session itself says; `governance` counts the
/// governance facts that its steps filed.
pub fn room_outcome(
    fatal: Option<Error>,
    governance: usize,
    session: Result<usize, WireError>,
) -> (r: Result<SyncOutcome, Error>)
    ensures
        match (fatal, session) {
            (Some(e), _) => r == Err::<SyncOutcome, Error>(e),
            (None, Err(code)) => r == Err::<SyncOutcome, Error>(sync::failure_of(code)),
            (None, Ok(n)) => r == Ok::<SyncOutcome, Error>(
                SyncOutcome { applied: n, governance, rendered: 0 },
            ),
        },
{
    match fatal {
        Some(e) => Err(e),
        None => match session {
            Ok(n) => Ok(SyncOutcome { applied: n, governance, rendered: 0 }),
            Err(code) => Err(sync_failure(code)),
        },
    }
}

// ---- a whole session ---------------------------------------------------------

/// Why the entry at `i` stops a pass, or `None` where it does not: it is not filed, or its
/// write fails.
pub open spec fn stop_at(
    lg: Seq<LogEntry>,
    arrived: Seq<Digest32>,
    framed: Seq<bool>,
    written: Seq<Result<(), Error>>,
) -> spec_fn(int) -> Option<Error> {
    |i: int|
        state::or_fault(filing_fault(lg, arrived[i], framed[i]), state::fault_in(written[i]))
}

/// The number of the `k`-th segment behind the one numbered `n`.
pub open spec fn segment_number(n: u64, k: nat) -> u64
    decreases k,
{
    if k == 0 {
        n
    } else {
        lists::succ(segment_number(n, (k - 1) as nat))
    }
}

/// Whether a pass stopped at the entry at `k`, with this error, after this many writes: one
/// that could not be filed is not written; one whose write failed poisons the copy.
pub open spec fn stopped_at(
    k: int,
    e: Error,
    lg: Seq<LogEntry>,
    arrived: Seq<Digest32>,
    framed: Seq<bool>,
    written: Seq<Result<(), Error>>,
    writes: nat,
    poisoned: bool,
) -> bool {
    &&& 0 <= k < arrived.len()
    &&& segments::first_fault(k as nat, stop_at(lg, arrived, framed, written)) is None
    &&& stop_at(lg, arrived, framed, written)(k) == Some(e)
    &&& writes == (if filing_fault(lg, arrived[k], framed[k]) is Some {
        k
    } else {
        k + 1
    })
    &&& poisoned == (filing_fault(lg, arrived[k], framed[k]) is None)
}

/// How many of the first `n` entries that arrived are governance facts.
pub open spec fn governing(
    lg: Seq<LogEntry>,
    arrived: Seq<Digest32>,
    framed: Seq<bool>,
    n: nat,
) -> nat
    decreases n,
{
    if n == 0 {
        0
    } else {
        let i = n - 1;
        governing(lg, arrived, framed, i as nat) + (if governs(
            lg[sync::by_hash(lg, arrived[i])->Some_0],
            framed[i],
        ) {
            1nat
        } else {
            0
        })
    }
}

/// The wire form of an entry that arrived.
pub open spec fn wire_of(lg: Seq<LogEntry>, h: Digest32) -> Seq<u8> {
    lg[sync::by_hash(lg, h)->Some_0].wire@
}

impl AnchorState {
    /// Takes up a whole session: the entries that it applied, and what it reported. Of the
    /// entries that arrived, in order, `framed` says whether the payload is a struct-tagged
    /// frame and `written` how the write went. The writes come back beside the outcome; the
    /// first entry that cannot be filed ends it.
    pub fn sync_over(
        &mut self,
        entries: Vec<LogEntry>,
        session: Result<usize, WireError>,
        framed: &Vec<bool>,
        written: Vec<Result<(), Error>>,
    ) -> (r: (Vec<SegmentWrite>, Result<SyncOutcome, Error>))
        requires
            old(self).wf(),
            state::by_authors(entries@, old(self).authors.map()),
            !old(self).poisoned ==> {
                let n = hashes_past(old(self).log@ + entries@, heads_of(*old(self))).len();
                framed@.len() >= n && written@.len() >= n
            },
        ensures
            final(self).wf(),
            *final(self) == (AnchorState {
                log: final(self).log,
                next_log_id: final(self).next_log_id,
                poisoned: final(self).poisoned,
                ..*old(self)
            }),
            if old(self).poisoned {
                &&& *final(self) == *old(self)
                &&& r.0@.len() == 0
                &&& r.1 == Err::<SyncOutcome, Error>(copy::poisoned_error())
            } else {
                let lg = old(self).log@ + entries@;
                let arrived = hashes_past(lg, heads_of(*old(self)));
                let stop = segments::first_fault(
                    arrived.len(),
                    stop_at(lg, arrived, framed@, written@),
                );
                &&& final(self).log@ == lg
                &&& forall|i: int|
                    0 <= i < r.0@.len() ==> (#[trigger] r.0@[i]).kind == SegmentKind::AnchorLog
                        && r.0@[i].bytes@ == wire_of(lg, arrived[i]) && r.0@[i].id
                        == segment_number(old(self).next_log_id, i as nat)
                &&& match stop {
                    Some(e) => {
                        &&& r.1 == Err::<SyncOutcome, Error>(e)
                        &&& exists|k: int| #[trigger]
                            stopped_at(
                                k,
                                e,
                                lg,
                                arrived,
                                framed@,
                                written@,
                                r.0@.len(),
                                final(self).poisoned,
                            ) && final(self).next_log_id == segment_number(
                                old(self).next_log_id,
                                k as nat,
                            )
                    },
                    None => {
                        &&& r.0@.len() == arrived.len()
                        &&& state::writes_view(r.0@) == rest::filings(
                            lg,
                            arrived,
                            old(self).next_log_id,
                        )
                        &&& !final(self).poisoned
                        &&& final(self).next_log_id == segment_number(
                            old(self).next_log_id,
                            arrived.len(),
                        )
                        &&& match session {
                            Ok(n) => r.1 == Ok::<SyncOutcome, Error>(
                                SyncOutcome {
                                    applied: n,
                                    governance: governing(
                                        lg,
                                        arrived,
                                        framed@,
                                        arrived.len(),
                                    ) as usize,
                                    rendered: 0,
                                },
                            ),
                            Err(code) => r.1 == Err::<SyncOutcome, Error>(sync::failure_of(code)),
                        }
                    },
                }
            },
    {
        let mut writes: Vec<SegmentWrite> = Vec::new();
        let heads: Vec<(Digest32, u64)> = match self.begin_sync() {
            Ok(h) => h,
            Err(e) => {
                return (writes, Err(e));
            },
        };
        self.apply_session(entries);
        let mut pass: AnchorPass = AnchorPass::start(&*self, &heads, session);
        let ghost lg = self.log@;
        let ghost arrived = pass.arrived@;
        let ghost out = pass.out;
        let ghost results = written@;
        let ghost f = stop_at(lg, arrived, framed@, results);
        let mut left: Vec<Result<(), Error>> = written;
        let n: usize = pass.arrived.len();
        assert(results.skip(0) =~= results);
        while pass.at < n
            invariant
                self.wf(),
                pass.wf(),
                !old(self).poisoned,
                lg == old(self).log@ + entries@,
                arrived == hashes_past(lg, heads_of(*old(self))),
                results == written@,
                n == arrived.len(),
                pass.arrived@ == arrived,
                framed@.len() >= n,
                results.len() >= n,
                left@ == results.skip(pass.at as int),
                self.log@ == lg,
                *self == (AnchorState {
                    log: self.log,
                    next_log_id: self.next_log_id,
                    poisoned: self.poisoned,
                    ..*old(self)
                }),
                !self.poisoned,
                self.next_log_id == segment_number(old(self).next_log_id, pass.at as nat),
                f == stop_at(lg, arrived, framed@, results),
                segments::first_fault(pass.at as nat, f) is None,
                pass.out.applied == out.applied,
                pass.out.governance == governing(lg, arrived, framed@, pass.at as nat),
                pass.failure == (match session {
                    Ok(_) => None,
                    Err(code) => Some(code),
                }),
                writes@.len() == pass.at,
                forall|i: int|
                    0 <= i < writes@.len() ==> (#[trigger] writes@[i]).kind
                        == SegmentKind::AnchorLog && writes@[i].bytes@ == wire_of(lg, arrived[i])
                        && writes@[i].id == segment_number(old(self).next_log_id, i as nat),
            decreases n - pass.at,
        {
            let at: usize = pass.at;
            proof {
                if f(at as int) is Some {
                    assert(segments::first_fault((at + 1) as nat, f) == f(at as int));
                    segments::lemma_first_fault((at + 1) as nat, n as nat, f);
                }
            }
            match pass.next_write(&*self, framed[at]) {
                Err(e) => {
                    assert(stopped_at(
                        at as int,
                        e,
                        lg,
                        arrived,
                        framed@,
                        results,
                        writes@.len(),
                        self.poisoned,
                    ));
                    return (writes, Err(e));
                },
                Ok(None) => {},
                Ok(Some((w, governance))) => {
                    writes.push(w);
                    let one: Result<(), Error> = left.remove(0);
                    assert(one == results[at as int]);
                    assert(left@ =~= results.skip(at + 1));
                    match pass.filed(self, one, governance) {
                        Err(e) => {
                            assert(stopped_at(
                                at as int,
                                e,
                                lg,
                                arrived,
                                framed@,
                                results,
                                writes@.len(),
                                self.poisoned,
                            ));
                            return (writes, Err(e));
                        },
                        Ok(_) => {},
                    }
                },
            }
        }
        assert(state::writes_view(writes@) =~= rest::filings(lg, arrived, old(self).next_log_id));
        let r: Result<SyncOutcome, Error> = pass.finish();
        (writes, r)
    }
}

// ---- laws --------------------------------------------------------------------

proof fn lemma_hash_at_source(lg: Seq<LogEntry>, author: Digest32, seq: u64)
    ensures
        forall|h: Digest32|
            hash_at(lg, author, seq).contains(h) ==> exists|i: int|
                0 <= i < lg.len() && (#[trigger] lg[i]).entry_hash == h && lg[i].author_id == author
                    && lg[i].seq == seq,
{
    log::lemma_feed_at(lg, author, seq);
    assert forall|h: Digest32| hash_at(lg, author, seq).contains(h) implies exists|i: int|
        0 <= i < lg.len() && (#[trigger] lg[i]).entry_hash == h && lg[i].author_id == author
            && lg[i].seq == seq by {
        let i = log::feed_at(lg, author, seq)->Some_0;
        assert(lg[i].entry_hash == h);
    }
}

/// Whether an entry with this hash stands in the log past place `from` of `author`'s feed.
pub open spec fn stands_past(lg: Seq<LogEntry>, author: Digest32, from: u64, h: Digest32) -> bool {
    exists|i: int|
        0 <= i < lg.len() && (#[trigger] lg[i]).entry_hash == h && lg[i].author_id == author
            && lg[i].seq > from
}

proof fn lemma_hashes_in_source(lg: Seq<LogEntry>, author: Digest32, from: u64, to: u64, h: Digest32)
    requires
        hashes_in(lg, author, from, to).contains(h),
    ensures
        stands_past(lg, author, from, h),
    decreases to,
{
    if to > from {
        let front = hashes_in(lg, author, from, (to - 1) as u64);
        let last = hash_at(lg, author, to);
        let k = (front + last).index_of(h);
        if k < front.len() {
            assert(front[k] == h);
            lemma_hashes_in_source(lg, author, from, (to - 1) as u64, h);
        } else {
            assert(last[k - front.len()] == h);
            assert(last.contains(h));
            lemma_hash_at_source(lg, author, to);
        }
    }
}

/// An anchor files nothing that it did not receive past the heads it began with: every
/// hash in the pass is that of an entry of the log, by an author who was known when the
/// session began, behind the last entry held of that author.
pub proof fn law_files_only_what_is_new(
    lg: Seq<LogEntry>,
    heads: Seq<(Digest32, u64)>,
    h: Digest32,
)
    requires
        hashes_past(lg, heads).contains(h),
    ensures
        exists|k: int|
            0 <= k < heads.len() && stands_past(lg, (#[trigger] heads[k]).0, heads[k].1, h),
    decreases heads.len(),
{
    if heads.len() > 0 {
        let (author, head) = heads.last();
        let front = hashes_past(lg, heads.drop_last());
        let last = hashes_in(lg, author, head, log::max_seq(lg, author));
        let k = (front + last).index_of(h);
        if k < front.len() {
            assert(front[k] == h);
            law_files_only_what_is_new(lg, heads.drop_last(), h);
            let w = choose|w: int|
                0 <= w < heads.drop_last().len() && stands_past(
                    lg,
                    (#[trigger] heads.drop_last()[w]).0,
                    heads.drop_last()[w].1,
                    h,
                );
            assert(heads[w] == heads.drop_last()[w]);
        } else {
            assert(last[k - front.len()] == h);
            lemma_hashes_in_source(lg, author, head, log::max_seq(lg, author), h);
            assert(stands_past(lg, heads[heads.len() - 1].0, heads[heads.len() - 1].1, h));
        }
    }
}

proof fn lemma_hashes_in_empty(lg: Seq<LogEntry>, author: Digest32, to: u64)
    ensures
        hashes_in(lg, author, to, to).len() == 0,
{
}

/// Where a session brought nothing, an anchor files nothing.
pub proof fn law_nothing_new_files_nothing(st: AnchorState)
    ensures
        hashes_past(st.log@, heads_of(st)).len() == 0,
{
    lemma_no_news(st, heads_of(st).len());
    assert(heads_of(st).take(heads_of(st).len() as int) =~= heads_of(st));
}

proof fn lemma_no_news(st: AnchorState, n: nat)
    requires
        n <= heads_of(st).len(),
    ensures
        hashes_past(st.log@, heads_of(st).take(n as int)).len() == 0,
    decreases n,
{
    let heads = heads_of(st).take(n as int);
    if n > 0 {
        assert(heads.drop_last() =~= heads_of(st).take(n - 1));
        lemma_no_news(st, (n - 1) as nat);
        assert(heads.last() == heads_of(st)[n - 1]);
        lemma_hashes_in_empty(st.log@, heads.last().0, heads.last().1);
    }
}

} // verus!
