//! What holds of a channel that is opened, made or joined: which stored pieces are enough,
//! and what of them is taken up.

use vstd::prelude::*;

use crate::channel::log;
use crate::channel::ops;
use crate::channel::segments::{self, EntryKind, Rendered};
use crate::channel::state::{
    self, ChannelState, LogEntry, NewChannel, SegmentKind, SegmentWrite, StoredChannel, StoredEntry,
    StoredRow,
};
use crate::content::Content;
use crate::error::Error;
use crate::hash::Digest32;
use crate::identity::CompositePublicKey;
use crate::table::Key;

verus! {

// ---- faults ------------------------------------------------------------------

/// The fault that is told of several rows is that of the first row that has one; there is
/// none exactly if no row has one.
pub proof fn law_first_fault_is_told(n: nat, f: spec_fn(int) -> Option<Error>)
    ensures
        segments::first_fault(n, f) is None <==> forall|i: int| 0 <= i < n ==> #[trigger] f(i)
            is None,
        segments::first_fault(n, f) is Some ==> exists|i: int|
            {
                &&& 0 <= i < n
                &&& #[trigger] f(i) == segments::first_fault(n, f)
                &&& forall|j: int| 0 <= j < i ==> #[trigger] f(j) is None
            },
    decreases n,
{
    if n > 0 {
        let less = (n - 1) as nat;
        law_first_fault_is_told(less, f);
        if segments::first_fault(less, f) is Some {
            let i = choose|i: int|
                {
                    &&& 0 <= i < less
                    &&& #[trigger] f(i) == segments::first_fault(less, f)
                    &&& forall|j: int| 0 <= j < i ==> #[trigger] f(j) is None
                };
            assert(f(i) is Some);
        } else if f(n - 1) is Some {
            assert(f(n - 1) == segments::first_fault(n, f));
        }
    }
}

/// A list of rows is taken up exactly if it was read to its end and no row has a fault; a
/// row's fault is told before what stopped the reading.
pub proof fn law_rows_are_taken_up_whole(
    n: nat,
    f: spec_fn(int) -> Option<Error>,
    shape: Option<Error>,
)
    ensures
        segments::rows_fault(n, f, shape) is None <==> shape is None && forall|i: int|
            0 <= i < n ==> #[trigger] f(i) is None,
        (exists|i: int| 0 <= i < n && #[trigger] f(i) is Some) ==> segments::rows_fault(
            n,
            f,
            shape,
        ) == segments::rows_fault(n, f, None),
{
    law_first_fault_is_told(n, f);
}

// ---- rows --------------------------------------------------------------------

/// An author row has no fault exactly if its key decodes and is the one that the row
/// names; a key that does not decode is told as such.
pub proof fn law_author_row_names_its_key(
    rows: Seq<(Digest32, Vec<u8>)>,
    decoded: Seq<Result<CompositePublicKey, Error>>,
    i: int,
)
    ensures
        segments::author_fault(rows, decoded)(i) is None <==> decoded[i] is Ok
            && decoded[i]->Ok_0.fingerprint@ == rows[i].0@,
        decoded[i] is Err ==> segments::author_fault(rows, decoded)(i) == Some(decoded[i]->Err_0),
{
}

/// The keys under which authors are taken up are those that the rows name, with what they
/// decode to, each and in order.
pub proof fn law_author_keys_are_the_rows(
    rows: Seq<(Digest32, Vec<u8>)>,
    decoded: Seq<Result<CompositePublicKey, Error>>,
    i: int,
)
    requires
        0 <= i < rows.len(),
        segments::author_fault(rows, decoded)(i) is None,
    ensures
        segments::author_keys_of(rows, decoded).len() == rows.len(),
        segments::author_keys_of(rows, decoded)[i].0 == rows[i].0,
        Ok::<CompositePublicKey, Error>(segments::author_keys_of(rows, decoded)[i].1) == decoded[i],
        segments::author_keys_of(rows, decoded)[i].1.fingerprint@ == segments::author_keys_of(
            rows,
            decoded,
        )[i].0@,
{
}

/// A service row has no fault exactly if its address parses and its tag is 1 to 64 bytes.
pub proof fn law_service_row_is_whole(
    rows: Seq<(String, String)>,
    parsed: Seq<Option<String>>,
    i: int,
)
    ensures
        segments::service_fault(rows, parsed)(i) is None <==> {
            &&& parsed[i] is Some
            &&& 0 < vstd::utf8::encode_utf8(rows[i].0@).len() < 65
        },
        0 <= i < rows.len() ==> segments::services_of(rows, parsed)[i].0 == rows[i].0 && (parsed[i]
            is Some ==> Some(segments::services_of(rows, parsed)[i].1) == parsed[i]),
{
}

/// A receiver row has no fault exactly if its state decodes, and the chain stands under the
/// author and the generation that it carries itself.
pub proof fn law_receiver_row_names_itself(
    decoded: Seq<Result<segments::ReceiverChain, Error>>,
    i: int,
)
    requires
        0 <= i < decoded.len(),
    ensures
        segments::receiver_fault(decoded)(i) is None <==> decoded[i] is Ok,
        decoded[i] is Ok ==> {
            &&& segments::receivers_of(decoded)[i].1 == decoded[i]->Ok_0
            &&& segments::receivers_of(decoded)[i].0 == segments::receivers_of(decoded)[i].1.slot()
        },
{
}

/// Seconds become milliseconds, and a time too late to be told in them becomes the latest
/// there is; a later time never becomes an earlier one.
pub proof fn law_seconds_become_milliseconds(a: u64, b: u64)
    requires
        a <= b,
    ensures
        a <= u64::MAX / 1000 ==> segments::millis_of_secs(a) == a * 1000,
        a > u64::MAX / 1000 ==> segments::millis_of_secs(a) == u64::MAX,
        segments::millis_of_secs(a) <= segments::millis_of_secs(b),
{
}

// ---- entries -----------------------------------------------------------------

/// A stored entry has no fault exactly if it decodes, is by an author of the channel, has
/// either been pruned or a payload of one of the two kinds, stands as a fact if it carries
/// one, and is accepted.
pub proof fn law_stored_entry_is_sound_exactly(
    authors: Map<Seq<u8>, CompositePublicKey>,
    entries: Seq<StoredEntry>,
    i: int,
)
    ensures
        state::entry_fault(authors, entries)(i) is None <==> {
            let s = entries[i];
            &&& s.entry is Ok
            &&& authors.contains_key(s.entry->Ok_0.author_id@)
            &&& s.accepted
            &&& s.entry->Ok_0.payload is Some ==> {
                let p = s.entry->Ok_0.payload->Some_0@;
                ||| segments::payload_kind(p, s.framed) == Some(EntryKind::Content)
                ||| segments::payload_kind(p, s.framed) == Some(EntryKind::Governance)
                    && s.governance is Ok
            }
        },
{
}

/// The facts that an opened channel goes by are those of its log, each and in order, and
/// nothing else.
pub proof fn law_every_fact_is_taken_up(stored: Seq<StoredEntry>, h: Digest32)
    ensures
        state::governance_of(stored).contains(h) <==> exists|i: int|
            0 <= i < stored.len() && state::is_governance(#[trigger] stored[i])
                && stored[i].entry->Ok_0.entry_hash == h,
        state::governance_of(stored).len() <= stored.len(),
        forall|i: int|
            0 <= i < stored.len() && state::is_governance(#[trigger] stored[i]) ==> {
                let n = state::governance_of(stored.take(i)).len() as int;
                &&& n < state::governance_of(stored).len()
                &&& state::governance_of(stored)[n] == stored[i].entry->Ok_0.entry_hash
            },
    decreases stored.len(),
{
    if stored.len() > 0 {
        let front = stored.drop_last();
        let last = stored.last();
        law_every_fact_is_taken_up(front, h);
        let before = state::governance_of(front);
        let all = state::governance_of(stored);
        if exists|i: int|
            0 <= i < front.len() && state::is_governance(#[trigger] front[i])
                && front[i].entry->Ok_0.entry_hash == h {
            let i = choose|i: int|
                0 <= i < front.len() && state::is_governance(#[trigger] front[i])
                    && front[i].entry->Ok_0.entry_hash == h;
            assert(stored[i] == front[i]);
        }
        if exists|i: int|
            0 <= i < stored.len() && state::is_governance(#[trigger] stored[i])
                && stored[i].entry->Ok_0.entry_hash == h {
            let i = choose|i: int|
                0 <= i < stored.len() && state::is_governance(#[trigger] stored[i])
                    && stored[i].entry->Ok_0.entry_hash == h;
            if i < front.len() {
                assert(front[i] == stored[i]);
            }
        }
        if before.contains(h) {
            let k = before.index_of(h);
            assert(all[k] == h);
        }
        if all.contains(h) {
            let k = all.index_of(h);
            if k < before.len() {
                assert(before[k] == h);
            } else {
                assert(stored[stored.len() - 1] == last);
            }
        }
        if state::is_governance(last) {
            assert(all[before.len() as int] == last.entry->Ok_0.entry_hash);
        }
        assert forall|i: int| 0 <= i < stored.len() && state::is_governance(
            #[trigger] stored[i],
        ) implies ({
            let n = state::governance_of(stored.take(i)).len() as int;
            &&& n < all.len()
            &&& all[n] == stored[i].entry->Ok_0.entry_hash
        }) by {
            if i < front.len() {
                assert(front[i] == stored[i]);
                assert(front.take(i) =~= stored.take(i));
            } else {
                assert(stored.take(i) =~= front);
            }
        }
    }
}

/// The rows that are shown are those of the cache whose entry is in the log, and nothing
/// besides.
pub proof fn law_rows_in_the_log_are_shown(rows: Seq<Rendered>, log: Seq<LogEntry>, r: Rendered)
    ensures
        state::in_log_rows(rows, log).contains(r) <==> rows.contains(r) && state::in_log(
            log,
            r.entry_hash,
        ),
        state::in_log_rows(rows, log).len() <= rows.len(),
    decreases rows.len(),
{
    if rows.len() > 0 {
        let front = rows.drop_last();
        let last = rows.last();
        law_rows_in_the_log_are_shown(front, log, r);
        let before = state::in_log_rows(front, log);
        let all = state::in_log_rows(rows, log);
        if front.contains(r) {
            assert(rows[front.index_of(r)] == r);
        }
        if rows.contains(r) {
            let k = rows.index_of(r);
            if k < front.len() {
                assert(front[k] == r);
            }
        }
        if before.contains(r) {
            assert(all[before.index_of(r)] == r);
        }
        if all.contains(r) {
            let k = all.index_of(r);
            if k < before.len() {
                assert(before[k] == r);
            } else {
                assert(rows[rows.len() - 1] == last);
            }
        }
        if state::in_log(log, last.entry_hash) {
            assert(all[before.len() as int] == last);
        }
    }
}

/// The rows that are shown keep the order of the cache: each stands behind those of the rows
/// before it that are shown.
pub proof fn law_shown_rows_keep_their_order(rows: Seq<Rendered>, log: Seq<LogEntry>, i: int)
    requires
        0 <= i < rows.len(),
        state::in_log(log, rows[i].entry_hash),
    ensures
        ({
            let n = state::in_log_rows(rows.take(i), log).len() as int;
            &&& n < state::in_log_rows(rows, log).len()
            &&& state::in_log_rows(rows, log)[n] == rows[i]
        }),
    decreases rows.len(),
{
    let front = rows.drop_last();
    if i < front.len() {
        assert(front[i] == rows[i]);
        assert(front.take(i) =~= rows.take(i));
        law_shown_rows_keep_their_order(front, log, i);
    } else {
        assert(rows.take(i) =~= front);
    }
}

/// The number that is given next is above every number in use, and no higher than it has to
/// be: it is 1, or the number right behind one in use.
pub proof fn law_fresh_number_is_free(ids: Seq<u64>)
    requires
        forall|i: int| 0 <= i < ids.len() ==> #[trigger] ids[i] < u64::MAX,
    ensures
        state::above(ids) >= 1,
        forall|i: int| 0 <= i < ids.len() ==> #[trigger] ids[i] < state::above(ids),
        state::above(ids) == 1 || exists|i: int|
            0 <= i < ids.len() && #[trigger] ids[i] + 1 == state::above(ids),
    decreases ids.len(),
{
    if ids.len() > 0 {
        let front = ids.drop_last();
        assert forall|i: int| 0 <= i < front.len() implies #[trigger] front[i] < u64::MAX by {
            assert(front[i] == ids[i]);
        }
        law_fresh_number_is_free(front);
        assert(ids[ids.len() - 1] == ids.last());
        assert forall|i: int| 0 <= i < ids.len() implies #[trigger] ids[i] < state::above(ids) by {
            if i < front.len() {
                assert(front[i] == ids[i]);
            }
        }
        if state::above(ids) != 1 && state::above(ids) == state::above(front) {
            let i = choose|i: int|
                0 <= i < front.len() && #[trigger] front[i] + 1 == state::above(front);
            assert(ids[i] == front[i]);
        }
    }
}

// ---- a channel ---------------------------------------------------------------

/// A channel opens exactly if the identity and both factors are there, the manifest is this
/// channel's and sound, every author, entry, row, chain and service in it is, there is a
/// sender chain, and nothing failed to be read. That there are no receiver chains, anchors,
/// services, origins, ledger or admission is no fault.
pub proof fn law_channel_opens_exactly(s: StoredChannel, channel_id: Digest32)
    ensures
        state::open_fault(s, channel_id) is None <==> {
            &&& s.signer is Ok && s.wrap == Ok::<bool, Error>(true) && s.unlocked is Ok
            &&& s.manifest is Ok && s.manifest->Ok_0 is Some
            &&& segments::manifest_front(s.manifest->Ok_0->Some_0@).bad is None
            &&& segments::manifest_fault(s.manifest->Ok_0->Some_0@) is None
            &&& s.genesis is Ok && s.verified is Ok && s.genesis->Ok_0.channel_id == channel_id
            &&& s.authors is Ok && (s.authors->Ok_0 matches Some((read, decoded)) ==> read.fault
                is None && forall|i: int|
                0 <= i < read.rows@.len() ==> #[trigger] segments::author_fault(
                    read.rows@,
                    decoded@,
                )(i) is None)
            &&& s.log is Ok && forall|i: int|
                0 <= i < s.log->Ok_0@.len() ==> #[trigger] state::entry_fault(
                    s.all_authors(),
                    s.log->Ok_0@,
                )(i) is None
            &&& s.cache is Ok && forall|i: int|
                0 <= i < s.cache->Ok_0@.len() ==> #[trigger] state::cached_fault(s.cache->Ok_0@)(i)
                    is None
            &&& s.sender is Ok && s.sender->Ok_0 is Some
            &&& s.receivers is Ok && (s.receivers->Ok_0 matches Some((read, decoded)) ==> read.fault
                is None && forall|i: int|
                0 <= i < read.rows@.len() ==> #[trigger] segments::receiver_fault(decoded@)(i)
                    is None)
            &&& s.anchors is Ok
            &&& s.services is Ok && (s.services->Ok_0 matches Some((read, parsed)) ==> read.fault
                is None && forall|i: int|
                0 <= i < read.rows@.len() ==> #[trigger] segments::service_fault(
                    read.rows@,
                    parsed@,
                )(i) is None)
            &&& s.admission is Ok && s.origins is Ok
            &&& s.delivered is Ok && (s.delivered->Ok_0 matches Some(b) ==> segments::delivered_fault(
                b@,
            ) is None)
            &&& s.evaluator is Ok
        },
{
    match s.authors {
        Ok(Some((read, decoded))) => {
            law_rows_are_taken_up_whole(
                read.rows@.len(),
                segments::author_fault(read.rows@, decoded@),
                read.fault,
            );
        },
        _ => {},
    }
    match s.receivers {
        Ok(Some((read, decoded))) => {
            law_rows_are_taken_up_whole(
                read.rows@.len(),
                segments::receiver_fault(decoded@),
                read.fault,
            );
        },
        _ => {},
    }
    match s.services {
        Ok(Some((read, parsed))) => {
            law_rows_are_taken_up_whole(
                read.rows@.len(),
                segments::service_fault(read.rows@, parsed@),
                read.fault,
            );
        },
        _ => {},
    }
    law_first_fault_is_told(
        s.log->Ok_0@.len(),
        state::entry_fault(s.all_authors(), s.log->Ok_0@),
    );
    law_first_fault_is_told(s.cache->Ok_0@.len(), state::cached_fault(s.cache->Ok_0@));
}

/// Of a channel that is not here, nothing is told but that; whoever is not unlocked is told
/// that before anything about the channel; and a wrong passphrase is told before anything
/// that it protects is looked at.
pub proof fn law_locked_is_told_first(s: StoredChannel, t: StoredChannel, channel_id: Digest32)
    ensures
        s.signer is Err ==> state::open_fault(s, channel_id) == Some(s.signer->Err_0),
        s.signer is Ok && s.wrap == Ok::<bool, Error>(false) && t.signer is Ok && t.wrap == Ok::<
            bool,
            Error,
        >(false) ==> state::open_fault(s, channel_id) == state::open_fault(t, channel_id),
        s.signer is Ok && s.wrap == Ok::<bool, Error>(false) ==> state::open_fault(s, channel_id)
            is Some,
        s.signer is Ok && s.wrap == Ok::<bool, Error>(true) && s.unlocked is Err
            ==> state::open_fault(s, channel_id) == Some(s.unlocked->Err_0),
{
}

/// The creator is always among the authors of a channel, under the key that the genesis
/// names; and every author that is listed is, but for one listed under the creator's name.
pub proof fn law_creator_is_always_an_author(s: StoredChannel, k: Seq<u8>)
    requires
        s.genesis is Ok,
    ensures
        s.all_authors().contains_key(s.genesis->Ok_0.creator.fingerprint@),
        s.all_authors()[s.genesis->Ok_0.creator.fingerprint@] == s.genesis->Ok_0.creator,
        k != s.genesis->Ok_0.creator.fingerprint@ ==> {
            &&& s.all_authors().contains_key(k) <==> s.listed_authors().contains_key(k)
            &&& s.listed_authors().contains_key(k) ==> s.all_authors()[k] == s.listed_authors()[k]
        },
{
}

/// A joined channel is taken up exactly if its name is short enough, its genesis verifies
/// and is the one joined with, it is not here already, and nothing was sent under its chain.
pub proof fn law_joined_channel_is_taken_up_exactly(
    new: NewChannel,
    verified: Result<(), Error>,
    channel_id: Digest32,
    known: bool,
    local_name: Seq<char>,
)
    ensures
        state::join_fault(new, verified, channel_id, known, local_name) is None <==> {
            &&& vstd::utf8::encode_utf8(local_name).len() <= 128
            &&& verified is Ok
            &&& new.genesis.channel_id == channel_id
            &&& !known
            &&& new.sender.next_iteration == 0
        },
{
}

/// A new channel is written whole: its authors, its manifest, its sender chain and its
/// origins, each under its own number, and its admission exactly if it is known. Nothing is
/// written twice.
pub proof fn law_new_channel_is_written_whole(
    authors: Seq<(Digest32, CompositePublicKey)>,
    new: NewChannel,
    local_name: Seq<char>,
    now: u64,
    origins: state::Origins,
    admission: Option<Seq<u8>>,
)
    ensures
        ({
            let w = state::birth_writes(
                authors,
                new.genesis,
                local_name,
                now,
                new.sender,
                origins,
                admission,
            );
            &&& w.contains((SegmentKind::KeyMaterial, segments::SEG_SENDER, new.sender.state@))
            &&& w.contains((SegmentKind::KeyMaterial, segments::SEG_ORIGINS, origins.state@))
            &&& w.contains(
                (
                    SegmentKind::KeyMaterial,
                    segments::SEG_MANIFEST,
                    crate::cbor::enc(
                        segments::manifest_toks(new.genesis.wire@, local_name, now, 0),
                    ),
                ),
            )
            &&& w.contains(
                (
                    SegmentKind::KeyMaterial,
                    segments::SEG_AUTHORS,
                    crate::cbor::enc(segments::authors_toks(segments::authors_view(authors))),
                ),
            )
            &&& admission is Some ==> w.contains(
                (SegmentKind::KeyMaterial, segments::SEG_ADMISSION, admission->Some_0),
            )
            &&& w.len() == (if admission is Some {
                5int
            } else {
                4
            })
            &&& forall|i: int, j: int| 0 <= i < j < w.len() ==> (#[trigger] w[i]).1 != (
            #[trigger] w[j]).1
            &&& forall|i: int| 0 <= i < w.len() ==> (#[trigger] w[i]).0 == SegmentKind::KeyMaterial
        }),
{
    let w = state::birth_writes(
        authors,
        new.genesis,
        local_name,
        now,
        new.sender,
        origins,
        admission,
    );
    assert(w.contains(w[0]) && w.contains(w[1]) && w.contains(w[2]) && w.contains(w[3]));
    if admission is Some {
        assert(w.contains(w[4]));
    }
}

/// An opened channel shows its cache: a row that was read and whose entry is in the log is
/// on the timeline.
pub proof fn law_cached_row_is_shown(
    timeline: Seq<Rendered>,
    cache: Seq<StoredRow>,
    log: Seq<LogEntry>,
)
    requires
        state::shows(timeline, cache, log),
    ensures
        timeline.len() <= cache.len(),
        state::gated(timeline, log),
        exists|rows: Seq<Rendered>|
            {
                &&& #[trigger] state::cached_rows(rows, cache)
                &&& forall|r: Rendered| #[trigger]
                    timeline.contains(r) <==> rows.contains(r) && state::in_log(log, r.entry_hash)
            },
{
    let rows = choose|rows: Seq<Rendered>| #[trigger] state::cached_rows(rows, cache) && timeline
        == state::in_log_rows(rows, log);
    assert forall|r: Rendered| #[trigger] timeline.contains(r) <==> rows.contains(r)
        && state::in_log(log, r.entry_hash) by {
        law_rows_in_the_log_are_shown(rows, log, r);
    }
    assert forall|i: int| 0 <= i < timeline.len() implies state::in_log(
        log,
        (#[trigger] timeline[i]).entry_hash,
    ) by {
        assert(timeline.contains(timeline[i]));
    }
    if timeline.len() > 0 {
        law_rows_in_the_log_are_shown(rows, log, timeline[0]);
    }
    assert(state::cached_rows(rows, cache));
}

/// Everything in the log of a channel is by an author of it, and everything that it shows is
/// in the log.
pub proof fn law_channel_keeps_its_log(ch: ChannelState, i: int, j: int)
    requires
        ch.wf(),
        0 <= i < ch.log@.len(),
        0 <= j < ch.timeline@.len(),
    ensures
        ch.authors.map().contains_key(ch.log@[i].author_id@),
        ch.authors.map()[ch.log@[i].author_id@].fingerprint@ == ch.log@[i].author_id@,
        exists|k: int|
            0 <= k < ch.log@.len() && (#[trigger] ch.log@[k]).entry_hash
                == ch.timeline@[j].entry_hash,
{
    assert(state::in_log(ch.log@, ch.timeline@[j].entry_hash));
    assert(ch.authors.map().contains_key(ch.log@[i].author_id@));
}

/// A stored entry is a fact exactly if it has a payload, and that is framed and no message.
pub proof fn law_stored_fact_exactly(s: StoredEntry)
    requires
        s.entry is Ok,
    ensures
        state::is_governance(s) <==> {
            &&& s.entry->Ok_0.payload is Some
            &&& s.framed
            &&& !segments::is_group_message(s.entry->Ok_0.payload->Some_0@)
        },
{
}

/// An entry is in a log exactly if it is one of its entries; what is in a part of a log is
/// in the log.
pub proof fn law_in_the_log_exactly(
    a: Seq<LogEntry>,
    b: Seq<LogEntry>,
    e: LogEntry,
    h: Digest32,
)
    ensures
        !state::in_log(Seq::empty(), h),
        state::in_log(a + b, h) <==> state::in_log(a, h) || state::in_log(b, h),
        state::in_log(seq![e], h) <==> e.entry_hash == h,
{
    if state::in_log(a, h) {
        let i = choose|i: int| 0 <= i < a.len() && (#[trigger] a[i]).entry_hash == h;
        assert((a + b)[i].entry_hash == h);
    }
    if state::in_log(b, h) {
        let i = choose|i: int| 0 <= i < b.len() && (#[trigger] b[i]).entry_hash == h;
        assert((a + b)[a.len() + i].entry_hash == h);
    }
    if state::in_log(a + b, h) {
        let i = choose|i: int| 0 <= i < (a + b).len() && (#[trigger] (a + b)[i]).entry_hash == h;
        if i < a.len() {
            assert(a[i].entry_hash == h);
        } else {
            assert(b[i - a.len()].entry_hash == h);
        }
    }
    if e.entry_hash == h {
        assert(seq![e][0].entry_hash == h);
    }
}

/// The entries that are taken up are those that were stored, each and in order, and so are
/// their numbers.
pub proof fn law_stored_entries_are_taken_up(stored: Seq<StoredEntry>, i: int)
    requires
        0 <= i < stored.len(),
        stored[i].entry is Ok,
    ensures
        state::entries_of(stored).len() == stored.len(),
        Ok::<LogEntry, Error>(state::entries_of(stored)[i]) == stored[i].entry,
        state::ids_of(stored).len() == stored.len(),
        state::ids_of(stored)[i] == stored[i].id,
{
}

/// The row of an entry's content has the entry's hash and author, and the content's time and
/// text.
pub proof fn law_row_is_the_contents(row: Rendered, entry: LogEntry, content: Content)
    ensures
        log::row_for(row, entry, content) <==> {
            &&& row.entry_hash == entry.entry_hash
            &&& row.author == entry.author_id
            &&& row.created_millis == content.created_millis
            &&& row.text@ == content.text@
        },
{
}

/// Every receiver chain of a channel stands under its own author and generation, every
/// service under a tag of 1 to 64 bytes, and the name of the channel is no longer than 128.
pub proof fn law_channel_keeps_its_books(ch: ChannelState, k: Seq<u8>)
    requires
        ch.wf(),
    ensures
        ch.receivers.map().contains_key(k) ==> ch.receivers.map()[k].slot().key_bytes() == k,
        ch.services.map().contains_key(k) ==> 0 < k.len() < 65,
        vstd::utf8::encode_utf8(ch.local_name@).len() <= 128,
        ch.authors.map().contains_key(k) ==> ch.authors.map()[k].fingerprint@ == k
            && ch.authors.map()[k].wf(),
        ch.authors.map().contains_key(ch.genesis.creator.fingerprint@),
        ch.genesis.channel_id == ch.channel_id,
{
}

/// What is written says which segment it is and what stands in it.
pub proof fn law_write_says_what_it_is(w: SegmentWrite, id: u64, bytes: Seq<u8>)
    ensures
        ops::writes_key_material(w, id, bytes) <==> w.kind == SegmentKind::KeyMaterial && w.id == id
            && w.bytes@ == bytes,
        log::writes_entry(w, id, bytes) <==> w.kind == SegmentKind::LogDb && w.id == id && w.bytes@
            == bytes,
{
}

} // verus!
