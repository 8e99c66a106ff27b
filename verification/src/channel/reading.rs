//! What is read and what is not: an entry that may be read is shown, a fact is folded in, and
//! whatever arrives is stored whatever becomes of it.

use vstd::prelude::*;

use crate::cbor;
use crate::channel::log;
use crate::channel::segments::{self, ChainSlot, EntryKind};
use crate::channel::session::{self, Book, EntryWork, RenderWork, Setting};
use crate::channel::state::{ChannelState, LogEntry, SegmentKind};
use crate::channel::sync::{self, WireError};
use crate::content::{self, Content};
use crate::error::Error;
use crate::hash::{self, Digest32};
use crate::table::Key;

verus! {

/// Chains of different authors, or of different generations, are kept apart.
pub proof fn law_slots_are_told_apart(a: ChainSlot, b: ChainSlot)
    ensures
        a.key_bytes() == b.key_bytes() <==> a == b,
{
    if a.key_bytes() == b.key_bytes() {
        let (x, y) = (a.key_bytes(), b.key_bytes());
        cbor::lemma_be_len(a.chain_id as nat, 8);
        cbor::lemma_be_len(b.chain_id as nat, 8);
        assert(x.take(32) =~= a.author@);
        assert(y.take(32) =~= b.author@);
        hash::lemma_digest_ext(a.author, b.author);
        assert(x.skip(32) =~= cbor::be(a.chain_id as nat, 8));
        assert(y.skip(32) =~= cbor::be(b.chain_id as nat, 8));
        cbor::lemma_radix_values();
        cbor::lemma_value_be(a.chain_id as nat, 8);
        cbor::lemma_value_be(b.chain_id as nat, 8);
    }
}

/// Consent and a key are all that reading needs: wherever the author is this identity or has
/// consented, and a chain of the author's is held for the generation that the message names,
/// that chain opens it, whatever the number of the generation.
pub proof fn law_consent_and_key_are_enough(
    ch: ChannelState,
    author: Digest32,
    consented: bool,
    generation: u64,
)
    requires
        author == ch.sender.author_id || consented,
        ch.receivers.map().contains_key((ChainSlot { author, chain_id: generation }).key_bytes()),
    ensures
        log::readable(ch, author, consented, Some(generation)) == Some(
            ChainSlot { author, chain_id: generation },
        ),
{
}

/// A message is shown as it was written. Where its author is this identity or has consented,
/// a chain is held for the generation that it names, and it opens to the envelope of a text,
/// that text is the newest of the timeline, with its author, its entry and its time.
pub proof fn law_readable_message_is_shown(
    b: Book,
    me: Digest32,
    author: Digest32,
    entry_hash: Digest32,
    w: RenderWork,
    generation: u64,
    c: Content,
)
    requires
        author == me || w.consented,
        w.generation == Some(generation),
        b.receivers.contains_key((ChainSlot { author, chain_id: generation }).key_bytes()),
        w.opened is Ok,
        w.opened->Ok_0.plaintext@ == cbor::enc(
            content::envelope_toks(content::VERSION, c.created_millis, c.text@),
        ),
        content::text_fits(c.text@),
        w.shown is Ok,
    ensures
        ({
            let (after, e) = session::rendered(b, me, author, entry_hash, w);
            &&& e is None
            &&& after.timeline == b.timeline.push(
                (entry_hash, author, c.created_millis as int, c.text@),
            )
            &&& after.rendered == b.rendered + 1
            &&& after.receivers == b.receivers.insert(
                (ChainSlot { author, chain_id: generation }).key_bytes(),
                w.opened->Ok_0.chain,
            )
            &&& after.folded == b.folded && after.governance == b.governance
            &&& after.poisoned == b.poisoned
            &&& b.next_log_id < u64::MAX ==> after.next_log_id == b.next_log_id + 1
        }),
{
    content::law_content_read_back(c);
    let ts = content::envelope_toks(content::VERSION, c.created_millis, c.text@);
    assert(cbor::all_encodable(ts));
    cbor::law_items_read_back(ts);
    assert(ts[1] == cbor::Tok::Uint(content::VERSION));
    assert(ts[3] == cbor::Tok::Uint(c.created_millis));
    assert(ts[4] == cbor::Tok::Text(c.text@));
    assert(content::unit_of(content::VERSION) == 1);
    assert(c.created_millis * 1 == c.created_millis);
    assert(session::line_in(entry_hash, author, w.opened->Ok_0.plaintext@) == (
        entry_hash,
        author,
        c.created_millis as int,
        c.text@,
    ));
}

/// What may not be read, or does not open, changes nothing and is no error: without consent,
/// without a generation, without a chain for it, or where the chain does not open it.
pub proof fn law_unreadable_message_changes_nothing(
    b: Book,
    me: Digest32,
    author: Digest32,
    entry_hash: Digest32,
    w: RenderWork,
)
    requires
        (author != me && !w.consented) || w.generation is None || !b.receivers.contains_key(
            (ChainSlot { author, chain_id: w.generation->Some_0 }).key_bytes(),
        ) || w.opened is Err,
    ensures
        session::rendered(b, me, author, entry_hash, w) == (b, None::<Error>),
        session::render_batch(b, me, author, entry_hash, w).len() == 0,
{
}

/// An entry of an admitted author's that is in the log is written as it is on the wire, under
/// the next number, before anything else; where that write fails the channel is poisoned, and
/// nothing else changes.
pub proof fn law_entry_is_stored_first(
    b: Book,
    s: Setting,
    a: (Digest32, Digest32, Option<Seq<u8>>),
    w: EntryWork,
    i: int,
)
    requires
        s.authors.contains_key(a.0@),
        0 <= i < s.log.len(),
        s.log[i].entry_hash == a.1,
        forall|j: int| 0 <= j < i ==> (#[trigger] s.log[j]).entry_hash != a.1,
    ensures
        ({
            let batches = session::entry_batches(b, s, a, w);
            let (after, e) = session::worked(b, s, a, w);
            &&& batches.len() >= 1
            &&& batches[0] == seq![(SegmentKind::LogDb, b.next_log_id, s.log[i].wire@)]
            &&& w.written is Err ==> batches.len() == 1 && e == Some(w.written->Err_0) && after == (
            Book { poisoned: true, ..b })
            &&& w.written is Ok && b.next_log_id < u64::MAX ==> after.next_log_id > b.next_log_id
        }),
{
    crate::channel::feeds::law_hash_finds_its_first_entry(s.log, a.1);
}

/// A governance fact that arrives, holds under its author's key and can be evaluated is folded
/// in, and counted; it is not shown.
pub proof fn law_fact_is_folded_in(
    b: Book,
    s: Setting,
    a: (Digest32, Digest32, Option<Seq<u8>>),
    w: EntryWork,
)
    requires
        s.authors.contains_key(a.0@),
        exists|i: int| 0 <= i < s.log.len() && (#[trigger] s.log[i]).entry_hash == a.1,
        w.written is Ok && w.fact is Ok && w.evaluated is Ok,
        a.2 matches Some(p) && !vstd::utf8::encode_utf8("vox/group-msg/v1"@).is_prefix_of(p),
        w.framed,
    ensures
        ({
            let (after, e) = session::worked(b, s, a, w);
            &&& e is None
            &&& after.folded == b.folded.push(a.1)
            &&& after.governance == b.governance + 1
            &&& after.timeline == b.timeline && after.rendered == b.rendered
            &&& after.receivers == b.receivers && after.poisoned == b.poisoned
        }),
{
    crate::channel::feeds::law_hash_finds_its_first_entry(s.log, a.1);
}

/// A fact that does not hold under its author's key is never folded in, and is the fault that
/// is reported; it is stored all the same.
pub proof fn law_false_fact_is_not_folded_in(
    b: Book,
    s: Setting,
    a: (Digest32, Digest32, Option<Seq<u8>>),
    w: EntryWork,
    x: Error,
)
    requires
        w.fact == Err::<(), Error>(x),
    ensures
        session::worked(b, s, a, w).0.folded == b.folded,
        session::worked(b, s, a, w).0.governance == b.governance,
{
}

/// A pruned entry is stored and nothing else: it is neither shown nor folded in, and is no
/// fault.
pub proof fn law_pruned_entry_is_only_stored(
    b: Book,
    s: Setting,
    author: Digest32,
    entry_hash: Digest32,
    w: EntryWork,
)
    requires
        s.authors.contains_key(author@),
        exists|i: int| 0 <= i < s.log.len() && (#[trigger] s.log[i]).entry_hash == entry_hash,
        w.written is Ok,
        b.next_log_id < u64::MAX,
    ensures
        session::worked(b, s, (author, entry_hash, None), w) == (
            Book { next_log_id: (b.next_log_id + 1) as u64, ..b },
            None::<Error>,
        ),
{
    crate::channel::feeds::law_hash_finds_its_first_entry(s.log, entry_hash);
}

/// Whether an entry that arrived can be read by what the channel holds at the beginning of a
/// pass, and all that is written of it is written. `c` is its text.
pub open spec fn legible_from(
    b: Book,
    s: Setting,
    a: (Digest32, Digest32, Option<Seq<u8>>),
    w: EntryWork,
    c: Content,
) -> bool {
    &&& a.2 matches Some(p) && vstd::utf8::encode_utf8("vox/group-msg/v1"@).is_prefix_of(p)
    &&& a.0 == s.me || w.render.consented
    &&& w.render.generation is Some
    &&& b.receivers.contains_key(
        (ChainSlot { author: a.0, chain_id: w.render.generation->Some_0 }).key_bytes(),
    )
    &&& w.render.opened is Ok
    &&& w.render.opened->Ok_0.plaintext@ == cbor::enc(
        content::envelope_toks(content::VERSION, c.created_millis, c.text@),
    )
    &&& content::text_fits(c.text@)
}

/// A session shows every message that it brought and that can be read: where nothing that it
/// writes fails, an entry by an admitted author who consented, under a generation whose key is
/// held, is in the timeline in the end, as it was written.
pub proof fn law_session_shows_what_can_be_read(
    b: Book,
    s: Setting,
    arrived: Seq<(Digest32, Digest32, Option<Seq<u8>>)>,
    works: Seq<EntryWork>,
    k: nat,
    j: int,
    c: Content,
)
    requires
        k <= arrived.len(),
        works.len() >= arrived.len(),
        !b.poisoned,
        forall|i: int|
            0 <= i < k ==> (#[trigger] works[i]).written is Ok && works[i].render.shown is Ok,
        0 <= j < k,
        s.authors.contains_key(arrived[j].0@),
        exists|i: int| 0 <= i < s.log.len() && (#[trigger] s.log[i]).entry_hash == arrived[j].1,
        legible_from(b, s, arrived[j], works[j], c),
    ensures
        session::worked_all(b, s, arrived, works, k).0.timeline.contains(
            (arrived[j].1, arrived[j].0, c.created_millis as int, c.text@),
        ),
    decreases k,
{
    let less = (k - 1) as nat;
    let before = session::worked_all(b, s, arrived, works, less).0;
    let l = (arrived[j].1, arrived[j].0, c.created_millis as int, c.text@);
    lemma_not_poisoned(b, s, arrived, works, less);
    session::law_a_pass_only_adds(b, s, arrived, works, less);
    session::law_a_pass_only_adds(before, s, arrived.skip(less as int), works.skip(less as int), 1);
    assert(arrived.skip(less as int)[0] == arrived[less as int]);
    assert(works.skip(less as int)[0] == works[less as int]);
    let after = session::worked_all(b, s, arrived, works, k).0;
    assert(session::worked_all(before, s, arrived.skip(less as int), works.skip(less as int), 0).0
        == before);
    assert(after == session::worked(before, s, arrived[less as int], works[less as int]).0);
    if j < less {
        law_session_shows_what_can_be_read(b, s, arrived, works, less, j, c);
        let i = choose|i: int| 0 <= i < before.timeline.len() && before.timeline[i] == l;
        assert(after.timeline[i] == before.timeline[i]);
    } else {
        crate::channel::feeds::law_hash_finds_its_first_entry(s.log, arrived[j].1);
        let stored = Book { next_log_id: crate::lists::succ(before.next_log_id), ..before };
        law_readable_message_is_shown(
            stored,
            s.me,
            arrived[j].0,
            arrived[j].1,
            works[j].render,
            works[j].render.generation->Some_0,
            c,
        );
        assert(segments::GROUP_MSG_SIGN_DOMAIN@ == "vox/group-msg/v1"@);
        assert(after.timeline[before.timeline.len() as int] == l);
    }
}

proof fn lemma_not_poisoned(
    b: Book,
    s: Setting,
    arrived: Seq<(Digest32, Digest32, Option<Seq<u8>>)>,
    works: Seq<EntryWork>,
    k: nat,
)
    requires
        !b.poisoned,
        forall|i: int|
            0 <= i < k ==> (#[trigger] works[i]).written is Ok && works[i].render.shown is Ok,
    ensures
        !session::worked_all(b, s, arrived, works, k).0.poisoned,
    decreases k,
{
    if k > 0 {
        lemma_not_poisoned(b, s, arrived, works, (k - 1) as nat);
        assert(works[k - 1].written is Ok);
    }
}

/// A pass counts what it shows and what it folds in: the timeline grew by as many messages as
/// were rendered, and at least as many facts were folded in as are counted.
pub proof fn law_pass_counts_what_it_did(
    b: Book,
    s: Setting,
    arrived: Seq<(Digest32, Digest32, Option<Seq<u8>>)>,
    works: Seq<EntryWork>,
    k: nat,
)
    ensures
        ({
            let after = session::worked_all(b, s, arrived, works, k).0;
            &&& after.timeline.len() - b.timeline.len() == after.rendered - b.rendered
            &&& after.folded.len() - b.folded.len() >= after.governance - b.governance
            &&& session::worked_all(b, s, arrived, works, k).1 is None ==> after.folded.len()
                - b.folded.len() == after.governance - b.governance
        }),
    decreases k,
{
    if k > 0 {
        law_pass_counts_what_it_did(b, s, arrived, works, (k - 1) as nat);
    }
}

/// A key that arrives shows what could not be read before: where nothing that is written
/// fails, every message that is tried again, whose author is this identity or has consented,
/// whose generation is held and which opens to a text, is in the timeline in the end.
pub proof fn law_key_shows_what_was_unread(
    b: Book,
    me: Digest32,
    pending: Seq<(Digest32, Digest32, Option<Seq<u8>>)>,
    works: Seq<RenderWork>,
    k: nat,
    j: int,
    c: Content,
)
    requires
        k <= pending.len() <= works.len(),
        forall|i: int| 0 <= i < k ==> (#[trigger] works[i]).shown is Ok,
        0 <= j < k,
        pending[j].0 == me || works[j].consented,
        works[j].generation is Some,
        b.receivers.contains_key(
            (ChainSlot { author: pending[j].0, chain_id: works[j].generation->Some_0 }).key_bytes(),
        ),
        works[j].opened is Ok,
        works[j].opened->Ok_0.plaintext@ == cbor::enc(
            content::envelope_toks(content::VERSION, c.created_millis, c.text@),
        ),
        content::text_fits(c.text@),
    ensures
        session::rendered_all(b, me, pending, works, k).1 is None,
        session::rendered_all(b, me, pending, works, k).0.timeline.contains(
            (pending[j].1, pending[j].0, c.created_millis as int, c.text@),
        ),
    decreases k,
{
    let less = (k - 1) as nat;
    let l = (pending[j].1, pending[j].0, c.created_millis as int, c.text@);
    lemma_backfill_adds(b, me, pending, works, less);
    let before = session::rendered_all(b, me, pending, works, less).0;
    let after = session::rendered_all(b, me, pending, works, k).0;
    assert(works[less as int].shown is Ok);
    assert(before.timeline.is_prefix_of(after.timeline));
    if j < less {
        law_key_shows_what_was_unread(b, me, pending, works, less, j, c);
        let i = choose|i: int| 0 <= i < before.timeline.len() && before.timeline[i] == l;
        assert(after.timeline[i] == before.timeline[i]);
    } else {
        law_readable_message_is_shown(
            before,
            me,
            pending[j].0,
            pending[j].1,
            works[j],
            works[j].generation->Some_0,
            c,
        );
        assert(after.timeline[before.timeline.len() as int] == l);
    }
}

proof fn lemma_backfill_adds(
    b: Book,
    me: Digest32,
    pending: Seq<(Digest32, Digest32, Option<Seq<u8>>)>,
    works: Seq<RenderWork>,
    k: nat,
)
    requires
        forall|i: int| 0 <= i < k ==> (#[trigger] works[i]).shown is Ok,
    ensures
        session::rendered_all(b, me, pending, works, k).1 is None,
        forall|slot: Seq<u8>| #[trigger]
            b.receivers.contains_key(slot) ==> session::rendered_all(
                b,
                me,
                pending,
                works,
                k,
            ).0.receivers.contains_key(slot),
    decreases k,
{
    if k > 0 {
        lemma_backfill_adds(b, me, pending, works, (k - 1) as nat);
        assert(works[k - 1].shown is Ok);
    }
}

// ---- what is taken in, and what is refused ---------------------------------------

/// An entry of another's is taken into the log exactly where the channel is sound, the entry
/// is for this channel and this epoch, its author is admitted, its payload is there and is a
/// message or a frame, a frame holds under its author's key, and the log accepts it.
pub proof fn law_entry_is_accepted_exactly(
    ch: ChannelState,
    entry: LogEntry,
    framed: bool,
    fact: Result<(), Error>,
    accepted: bool,
)
    ensures
        log::entry_fault(ch, entry, framed, fact, accepted) is None <==> {
            &&& !ch.poisoned
            &&& entry.channel_id == ch.channel_id
            &&& entry.epoch == ch.epoch
            &&& ch.authors.map().contains_key(entry.author_id@)
            &&& entry.payload is Some
            &&& {
                ||| vstd::utf8::encode_utf8("vox/group-msg/v1"@).is_prefix_of(
                    entry.payload->Some_0@,
                )
                ||| framed && fact is Ok
            }
            &&& accepted
        },
        !ch.poisoned && entry.channel_id == ch.channel_id && entry.epoch == ch.epoch
            && !ch.authors.map().contains_key(entry.author_id@) ==> log::entry_fault(
            ch,
            entry,
            framed,
            fact,
            accepted,
        ) == Some(Error::MalformedGovernance("entry from an unadmitted author")),
{
    assert(segments::GROUP_MSG_SIGN_DOMAIN@ == "vox/group-msg/v1"@);
}

/// A payload that begins as a message is content, whatever else it is; any other is a fact
/// where it is framed, and nothing at all where it is not.
pub proof fn law_payload_is_of_one_kind(payload: Seq<u8>, framed: bool)
    ensures
        segments::payload_kind(payload, framed) == Some(EntryKind::Content)
            <==> vstd::utf8::encode_utf8("vox/group-msg/v1"@).is_prefix_of(payload),
        segments::payload_kind(payload, framed) == Some(EntryKind::Governance)
            <==> !vstd::utf8::encode_utf8("vox/group-msg/v1"@).is_prefix_of(payload) && framed,
{
    assert(segments::GROUP_MSG_SIGN_DOMAIN@ == "vox/group-msg/v1"@);
}

/// This identity authors exactly where the channel is sound, the identity is unlocked and it
/// is an admitted author; and what it authors is appended exactly where the log accepts it
/// besides.
pub proof fn law_authors_write_exactly(
    ch: ChannelState,
    signer: Result<Digest32, Error>,
    entry: LogEntry,
    accepted: bool,
    fact: Result<(), Error>,
    made: Result<LogEntry, Error>,
)
    ensures
        log::author_fault(ch, signer) is None <==> !ch.poisoned && signer is Ok
            && ch.authors.map().contains_key(signer->Ok_0@),
        log::append_fault(ch, entry, accepted) is None <==> !ch.poisoned
            && ch.authors.map().contains_key(entry.author_id@) && accepted,
        log::governance_fault(ch, signer, made, fact, accepted) is None <==> {
            &&& !ch.poisoned
            &&& signer is Ok && ch.authors.map().contains_key(signer->Ok_0@)
            &&& made is Ok && fact is Ok && accepted
        },
{
}

/// A sender key is taken up exactly where the channel is sound, its author is admitted, it
/// opened, and its generation is held already or there is room for one more.
pub proof fn law_sender_key_is_taken_exactly(
    ch: ChannelState,
    author: Digest32,
    chain: Result<segments::ReceiverChain, Error>,
)
    ensures
        log::skdm_fault(ch, author, chain) is None <==> {
            &&& !ch.poisoned
            &&& ch.authors.map().contains_key(author@)
            &&& chain is Ok
            &&& ch.receivers.map().contains_key(
                (ChainSlot { author, chain_id: chain->Ok_0.chain_id }).key_bytes(),
            ) || ch.receivers.rows().len() < segments::MAX_RECEIVER_CHAINS
        },
{
}

/// An entry that arrived is written down exactly where its author is admitted and the log
/// holds it.
pub proof fn law_arrival_is_stored_exactly(ch: ChannelState, a: log::Arrived)
    ensures
        sync::store_fault(ch, a) is None <==> ch.authors.map().contains_key(a.author@) && exists|
            i: int,
        |
            0 <= i < ch.log@.len() && (#[trigger] ch.log@[i]).entry_hash == a.entry_hash,
{
    crate::channel::feeds::law_hash_finds_its_first_entry(ch.log@, a.entry_hash);
}

/// What arrived without its payload is taken for content, and what arrived with it for what
/// the payload is.
pub proof fn law_arrival_is_taken_for_what_it_is(
    author: Digest32,
    h: Digest32,
    p: Seq<u8>,
    framed: bool,
)
    ensures
        sync::arrived_kind((author, h, None), framed) == Some(EntryKind::Content),
        sync::arrived_kind((author, h, Some(p)), framed) == Some(EntryKind::Content)
            <==> segments::is_group_message(p),
        sync::arrived_kind((author, h, Some(p)), framed) == Some(EntryKind::Governance)
            <==> framed && !segments::is_group_message(p),
        sync::arrived_kind((author, h, Some(p)), framed) is None <==> !framed
            && !segments::is_group_message(p),
{
}

/// A payload is a message exactly if it begins with the words that a message is signed
/// under, whatever follows; a payload shorter than those is none.
pub proof fn law_message_begins_with_its_domain(rest: Seq<u8>, p: Seq<u8>)
    ensures
        segments::is_group_message(vstd::utf8::encode_utf8("vox/group-msg/v1"@) + rest),
        p.len() < vstd::utf8::encode_utf8("vox/group-msg/v1"@).len() ==> !segments::is_group_message(
            p,
        ),
        segments::is_group_message(p) ==> p.take(
            vstd::utf8::encode_utf8("vox/group-msg/v1"@).len() as int,
        ) == vstd::utf8::encode_utf8("vox/group-msg/v1"@),
{
    let d = vstd::utf8::encode_utf8("vox/group-msg/v1"@);
    assert((d + rest).subrange(0, d.len() as int) =~= d);
    if segments::is_group_message(p) {
        assert(p.take(d.len() as int) =~= p.subrange(0, d.len() as int));
    }
}

/// Each way a session can fail is told in words of its own.
pub proof fn law_failures_are_told_apart(a: WireError, b: WireError)
    ensures
        sync::failure_of(a) == sync::failure_of(b) ==> a == b,
        sync::failure_of(a) is MalformedGovernance,
{
    reveal_strlit("sync failed: protocol version");
    reveal_strlit("sync failed: suite below floor");
    reveal_strlit("sync failed: unknown struct tag");
    reveal_strlit("sync failed: unknown algo id");
    reveal_strlit("sync failed: authenticator invalid");
    reveal_strlit("sync failed: quota exceeded");
    reveal_strlit("sync failed: sync mode unsupported");
    reveal_strlit("sync failed: epoch mismatch");
    reveal_strlit("sync failed: transport");
    let (x, y) = (sync::failure_of(a), sync::failure_of(b));
    if x == y {
        let (s, t) = (x->MalformedGovernance_0@, y->MalformedGovernance_0@);
        assert(s.len() == t.len() && s[13] == t[13] && s[14] == t[14] && s[15] == t[15]);
    }
}

/// A message that opens advances the chain that opened it, and no other, whatever becomes of
/// it then: also where what it holds cannot be read, and where the row could not be written.
/// Where that failed, it is not shown, the pass ends, and the channel is ahead of its store.
pub proof fn law_opened_message_advances_its_chain(
    b: Book,
    me: Digest32,
    author: Digest32,
    entry_hash: Digest32,
    w: RenderWork,
    generation: u64,
    other: Seq<u8>,
)
    requires
        author == me || w.consented,
        w.generation == Some(generation),
        b.receivers.contains_key((ChainSlot { author, chain_id: generation }).key_bytes()),
        w.opened is Ok,
    ensures
        ({
            let (after, e) = session::rendered(b, me, author, entry_hash, w);
            let k = (ChainSlot { author, chain_id: generation }).key_bytes();
            let read = content::envelope_fault(w.opened->Ok_0.plaintext@) is None;
            &&& after.receivers.contains_key(k) && after.receivers[k] == w.opened->Ok_0.chain
            &&& other != k ==> {
                &&& after.receivers.contains_key(other) == b.receivers.contains_key(other)
                &&& b.receivers.contains_key(other) ==> after.receivers[other] == b.receivers[other]
            }
            &&& e is Some <==> read && w.shown is Err
            &&& e is Some ==> e == Some(w.shown->Err_0) && after.poisoned
            &&& e is None ==> after.poisoned == b.poisoned
            &&& !(read && w.shown is Ok) ==> after.timeline == b.timeline && after.rendered
                == b.rendered && after.next_log_id == b.next_log_id
            &&& after.folded == b.folded && after.governance == b.governance
        }),
{
}

/// A fact that holds but cannot be evaluated stays folded in, and is not counted; it is the
/// fault that is reported.
pub proof fn law_fact_stays_though_not_evaluated(
    b: Book,
    s: Setting,
    a: (Digest32, Digest32, Option<Seq<u8>>),
    w: EntryWork,
    x: Error,
)
    requires
        s.authors.contains_key(a.0@),
        exists|i: int| 0 <= i < s.log.len() && (#[trigger] s.log[i]).entry_hash == a.1,
        w.written is Ok && w.fact is Ok,
        w.evaluated == Err::<(), Error>(x),
        a.2 matches Some(p) && !vstd::utf8::encode_utf8("vox/group-msg/v1"@).is_prefix_of(p),
        w.framed,
    ensures
        ({
            let (after, e) = session::worked(b, s, a, w);
            &&& e == Some(x)
            &&& after.folded == b.folded.push(a.1)
            &&& after.governance == b.governance
            &&& after.timeline == b.timeline && after.rendered == b.rendered
            &&& after.receivers == b.receivers && after.poisoned == b.poisoned
        }),
{
    crate::channel::feeds::law_hash_finds_its_first_entry(s.log, a.1);
}

/// What is written of a message that is shown is its row, under the next number, and the
/// chains with the one that opened it advanced, in one batch; of one that is not read,
/// nothing is.
pub proof fn law_shown_message_is_written_with_its_chain(
    b: Book,
    me: Digest32,
    author: Digest32,
    entry_hash: Digest32,
    w: RenderWork,
    generation: u64,
)
    requires
        author == me || w.consented,
        w.generation == Some(generation),
        b.receivers.contains_key((ChainSlot { author, chain_id: generation }).key_bytes()),
        w.opened is Ok,
    ensures
        ({
            let out = session::render_batch(b, me, author, entry_hash, w);
            let k = (ChainSlot { author, chain_id: generation }).key_bytes();
            if content::envelope_fault(w.opened->Ok_0.plaintext@) is Some {
                out.len() == 0
            } else {
                &&& out.len() == 1
                &&& out[0].len() == 2
                &&& exists|i: int|
                    0 <= i < 2 && (#[trigger] out[0][i]).0 == SegmentKind::PlaintextCache
                        && out[0][i].1 == b.next_log_id
                &&& exists|i: int|
                    0 <= i < 2 && (#[trigger] out[0][i]).0 == SegmentKind::KeyMaterial
                        && out[0][i].1 == segments::SEG_RECEIVERS && out[0][i].2
                        == session::chains_segment(b.receivers.insert(k, w.opened->Ok_0.chain))
            }
        }),
{
    let out = session::render_batch(b, me, author, entry_hash, w);
    if content::envelope_fault(w.opened->Ok_0.plaintext@) is None {
        assert(out[0][0].0 == SegmentKind::PlaintextCache);
        assert(out[0][1].0 == SegmentKind::KeyMaterial);
    }
}

/// A pass over what was unread ends at the first write that failed, and what was read before
/// that stays; where none failed, each is tried once, in order.
pub proof fn law_backfill_goes_on_until_a_write_fails(
    b: Book,
    me: Digest32,
    pending: Seq<(Digest32, Digest32, Option<Seq<u8>>)>,
    works: Seq<RenderWork>,
    k: nat,
)
    requires
        k < pending.len(),
        k < works.len(),
    ensures
        session::rendered_all(b, me, pending, works, 0) == (b, None::<Error>),
        session::rendered_all(b, me, pending, works, k).1 is None ==> session::rendered_all(
            b,
            me,
            pending,
            works,
            k + 1,
        ) == session::rendered(
            session::rendered_all(b, me, pending, works, k).0,
            me,
            pending[k as int].0,
            pending[k as int].1,
            works[k as int],
        ),
        session::rendered_all(b, me, pending, works, k).1 is Some ==> session::rendered_all(
            b,
            me,
            pending,
            works,
            k + 1,
        ) == session::rendered_all(b, me, pending, works, k),
{
}

/// The fault that a session reports is that of the first entry that has one, whatever comes
/// behind it; an entry's own fault is reported where none before it had any.
pub proof fn law_first_fault_of_a_session_is_told(
    b: Book,
    s: Setting,
    arrived: Seq<(Digest32, Digest32, Option<Seq<u8>>)>,
    works: Seq<EntryWork>,
    k: nat,
    n: nat,
)
    requires
        k <= n,
    ensures
        session::worked_all(b, s, arrived, works, 0).1 is None,
        session::worked_all(b, s, arrived, works, k).1 is Some ==> session::worked_all(
            b,
            s,
            arrived,
            works,
            n,
        ).1 == session::worked_all(b, s, arrived, works, k).1,
        ({
            let (before, e) = session::worked_all(b, s, arrived, works, k);
            e is None && !before.poisoned ==> session::worked_all(
                b,
                s,
                arrived,
                works,
                k + 1,
            ).1 == session::worked(before, s, arrived[k as int], works[k as int]).1
        }),
    decreases n,
{
    if k < n {
        law_first_fault_of_a_session_is_told(b, s, arrived, works, k, (n - 1) as nat);
    }
}

} // verus!
