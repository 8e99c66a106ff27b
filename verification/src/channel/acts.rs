//! What takes more than one step: a text that is sent, a consent that is revoked.

use vstd::prelude::*;

use crate::cbor;
use crate::channel::kept;
use crate::channel::log;
use crate::channel::ops::{self, Rotation};
use crate::channel::rest::{self, Places};
use crate::channel::segments::{Rendered, SEG_DELIVERED, SEG_SENDER};
use crate::channel::state::{
    self, ChannelState, LogEntry, SegmentKind, SenderChain, StoredChannel,
};
use crate::content::Content;
use crate::error::Error;
use crate::hash::Digest32;
use crate::lists;
use crate::table;

verus! {

/// What the store holds once the batch of an appended text was written.
pub open spec fn text_kept(
    store: Map<(SegmentKind, u64), Seq<u8>>,
    id: u64,
    entry: LogEntry,
    row: Rendered,
    sender: SenderChain,
) -> Map<(SegmentKind, u64), Seq<u8>> {
    rest::put(
        store,
        seq![
            (SegmentKind::LogDb, id, entry.wire@),
            (SegmentKind::PlaintextCache, id, cbor::enc(row.toks())),
            (SegmentKind::KeyMaterial, SEG_SENDER, sender.state@),
        ],
    )
}

/// A text is sent whole or not at all. Where its batch was written, it is the last of the
/// timeline and of the log, and the channel opens again with it. Where the batch failed,
/// nothing is shown, every append and every rotation is refused from then on, and what
/// opens again is the channel as it was before. `ready` is the channel once the chain has
/// advanced, `appended` once the entry was taken in.
pub proof fn law_text_is_sent_whole_or_not(
    store: Map<(SegmentKind, u64), Seq<u8>>,
    p: Places,
    before: ChannelState,
    ready: ChannelState,
    appended: ChannelState,
    after: ChannelState,
    content: Content,
    entry: LogEntry,
    row: Rendered,
    written: Result<(), Error>,
    s: StoredChannel,
)
    requires
        before.wf(),
        after.wf(),
        rest::keeps(store, before, p),
        before.next_log_id < u64::MAX,
        ready == (ChannelState { sender: ready.sender, ..before }),
        ready.sender.author_id == before.sender.author_id,
        log::append_fault(ready, entry, true) is None,
        entry.author_id == ready.sender.author_id,
        appended == (ChannelState { log: appended.log, ..ready }),
        appended.log@ == ready.log@.push(entry),
        log::row_for(row, entry, content),
        match written {
            Ok(_) => {
                &&& after == (ChannelState {
                    next_log_id: lists::succ(appended.next_log_id),
                    timeline: after.timeline,
                    ..appended
                })
                &&& after.timeline@ == appended.timeline@.push(row)
            },
            Err(_) => after == (ChannelState { poisoned: true, ..appended }),
        },
    ensures
        match written {
            Ok(_) => {
                let now = text_kept(store, before.next_log_id, entry, row, ready.sender);
                let q = kept::with_own(p, before.next_log_id, entry);
                &&& after.timeline@ == before.timeline@.push(row)
                &&& row.author == before.sender.author_id
                &&& row.created_millis == content.created_millis
                &&& row.text@ == content.text@
                &&& after.log@.len() == before.log@.len() + 1
                &&& after.log@.last() == entry
                &&& !after.poisoned
                &&& rest::fits(before) && rest::text_fits(row.text@) && rest::reads(
                    s,
                    now,
                    after,
                    q,
                ) ==> kept::reopens(s, after, q.entries)
            },
            Err(_) => {
                &&& after.timeline == before.timeline
                &&& forall|more: LogEntry, accepted: bool| #[trigger]
                    log::append_fault(after, more, accepted) == Some(ops::poisoned_error())
                &&& forall|signer: Result<Digest32, Error>| #[trigger]
                    log::author_fault(after, signer) == Some(ops::poisoned_error())
                &&& forall|next: Result<SenderChain, Error>| #[trigger]
                    ops::rotate_fault(after, next) == Some(ops::poisoned_error())
                &&& rest::fits(before) && rest::reads(s, store, before, p) ==> kept::reopens(
                    s,
                    before,
                    p.entries,
                )
            },
        },
{
    if written is Ok {
        kept::law_append_is_kept(store, before, after, p, entry, row, s);
    } else {
        kept::lemma_reopens(store, before, p, s);
    }
}

/// What the store holds once a revocation was written: the new generation with its origin,
/// the fact, and the ledger where the revoked identity had a row in it.
pub open spec fn revocation_kept(
    store: Map<(SegmentKind, u64), Seq<u8>>,
    before: ChannelState,
    after: ChannelState,
    entry: LogEntry,
    target: Digest32,
) -> Map<(SegmentKind, u64), Seq<u8>> {
    let turned = rest::put(store, ops::rotation_writes(after.sender, after.origins.state@));
    let stored = rest::put(turned, seq![(SegmentKind::LogDb, before.next_log_id, entry.wire@)]);
    if before.delivered.has(target@) {
        rest::put(
            stored,
            seq![
                (
                    SegmentKind::KeyMaterial,
                    SEG_DELIVERED,
                    ops::delivered_segment(after.delivered),
                ),
            ],
        )
    } else {
        stored
    }
}

/// A revocation is whole. The generation rises, and its origin is retained; the fact is on
/// the log; the revoked identity has no row in the ledger and is owed nothing; and owed are
/// exactly the readers who remain, apart from oneself. The channel opens again like that.
/// `begun` is the channel once the rotation is prepared, `turned` once it was written,
/// `appended` with the fact in the log, `stored` once that was written, `folded` once it was
/// evaluated, `after` with the delivery forgotten. `next` is the generation that the ratchet
/// minted and `remaining` who reads once the fact is evaluated.
pub proof fn law_revocation_is_whole(
    store: Map<(SegmentKind, u64), Seq<u8>>,
    p: Places,
    before: ChannelState,
    begun: ChannelState,
    turned: ChannelState,
    appended: ChannelState,
    stored: ChannelState,
    folded: ChannelState,
    after: ChannelState,
    next: SenderChain,
    origin_state: Seq<u8>,
    rotation: Rotation,
    entry: LogEntry,
    target: Digest32,
    readers: Seq<Digest32>,
    remaining: Seq<Digest32>,
    s: StoredChannel,
)
    requires
        before.wf(),
        after.wf(),
        rest::keeps(store, before, p),
        before.next_log_id < u64::MAX,
        ops::revoke_fault(before, target, readers) is None,
        ops::rotate_fault(before, Ok::<SenderChain, Error>(next)) is None,
        ops::follows(next, before.sender),
        forall|k: Seq<u8>| #[trigger]
            before.delivered.map().contains_key(k) ==> before.delivered.map()[k]
                <= before.sender.chain_id,
        !remaining.contains(target),
        ops::rotating(begun, before, next, origin_state, rotation),
        turned == (ChannelState { sender: next, ..begun }),
        appended == (ChannelState { log: appended.log, ..turned }),
        appended.log@ == turned.log@.push(entry),
        stored == (ChannelState { next_log_id: lists::succ(appended.next_log_id), ..appended }),
        folded == (ChannelState { gov_entries: folded.gov_entries, ..stored }),
        folded.gov_entries@ == stored.gov_entries@.push(entry.entry_hash),
        after == (ChannelState { delivered: after.delivered, ..folded }),
        after.delivered.map() == folded.delivered.map().remove(target@),
        !folded.delivered.has(target@) ==> after.delivered.rows() == folded.delivered.rows(),
    ensures
        after.sender.chain_id > before.sender.chain_id,
        after.origins.held@.contains(after.sender.chain_id),
        after.log@.last() == entry,
        after.gov_entries@.last() == entry.entry_hash,
        !after.delivered.has(target@),
        !lists::pick(remaining, ops::owes_rekey(after)).contains(target),
        forall|r: Digest32| #[trigger]
            lists::pick(remaining, ops::owes_rekey(after)).contains(r) <==> remaining.contains(r)
                && r != after.sender.author_id,
        ({
            let now = revocation_kept(store, before, after, entry, target);
            let q = Places {
                ids: p.ids.push(before.next_log_id),
                entries: p.entries.push(entry),
                rows: p.rows,
            };
            &&& rest::keeps(now, after, q)
            &&& rest::fits(before) && rest::reads(s, now, after, q) ==> kept::reopens(
                s,
                after,
                q.entries,
            )
        }),
{
    let held = after.origins.held@;
    assert(held[held.len() - 1] == next.chain_id);
    assert forall|r: Digest32| #[trigger]
        lists::pick(remaining, ops::owes_rekey(after)).contains(r) <==> remaining.contains(r) && r
            != after.sender.author_id by {
        lists::lemma_pick_contains(remaining, ops::owes_rekey(after), r);
        if after.delivered.has(r@) {
            assert(before.delivered.map().contains_key(r@));
        }
    }
    let q = Places {
        ids: p.ids.push(before.next_log_id),
        entries: p.entries.push(entry),
        rows: p.rows,
    };
    kept::law_rotation_is_kept(store, before, turned, p, s);
    let first = rest::put(store, ops::rotation_writes(after.sender, after.origins.state@));
    kept::law_stored_entry_is_kept(first, turned, folded, p, entry, s);
    let second = rest::put(first, seq![(SegmentKind::LogDb, before.next_log_id, entry.wire@)]);
    if before.delivered.has(target@) {
        kept::law_ledger_is_kept(second, folded, after, q, s);
    } else {
        assert(ops::delivered_segment(after.delivered) == ops::delivered_segment(
            folded.delivered,
        ));
    }
    table::lemma_rows_counted(folded.delivered.rows());
    table::lemma_rows_counted(after.delivered.rows());
    assert(after.delivered.map().dom() =~= folded.delivered.map().dom().remove(target@));
    kept::lemma_reopens(revocation_kept(store, before, after, entry, target), after, q, s);
}

/// A consent that was revoked stays revoked: whoever is not trusted is owed none, whoever
/// else reads and whichever authors were admitted.
pub proof fn law_revoked_is_owed_no_consent(
    ch: ChannelState,
    trusted: Seq<Digest32>,
    readers: Seq<Digest32>,
    target: Digest32,
)
    requires
        !trusted.contains(target),
    ensures
        !lists::pick(
            ops::ids_of(ch.authors.rows()),
            ops::owes_consent(ch.sender.author_id, trusted, readers),
        ).contains(target),
{
    lists::lemma_pick_contains(
        ops::ids_of(ch.authors.rows()),
        ops::owes_consent(ch.sender.author_id, trusted, readers),
        target,
    );
}

} // verus!
