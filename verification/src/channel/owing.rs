//! Who is owed a key, who may be revoked, and who may become an author: each exactly where
//! the rules say so.

use vstd::prelude::*;

use crate::bootstrap::{self, BootstrapSet};
use crate::channel::ops;
use crate::channel::segments::{self, MAX_AUTHORS};
use crate::channel::state::{self, Admission, ChannelState, SenderChain};
use crate::error::Error;
use crate::hash::Digest32;
use crate::identity::CompositePublicKey;
use crate::lists;
use crate::table::{self, Key};

verus! {

/// The fingerprints of a table's rows are its keys.
pub proof fn lemma_ids<V>(rows: Seq<(Digest32, V)>, id: Digest32)
    requires
        table::ascending(rows),
    ensures
        ops::ids_of(rows).contains(id) <==> table::map_of(rows).contains_key(id@),
{
    table::lemma_map_of(rows);
    let ids = ops::ids_of(rows);
    if ids.contains(id) {
        let i = choose|i: int| 0 <= i < ids.len() && ids[i] == id;
        assert(rows[i].0 == id);
        assert(rows[i].0.key_bytes() == id@);
    }
    if table::map_of(rows).contains_key(id@) {
        let i = choose|i: int| 0 <= i < rows.len() && (#[trigger] rows[i]).0.key_bytes() == id@;
        crate::hash::lemma_digest_ext(rows[i].0, id);
        assert(ids[i] == id);
    }
}

/// A consent is owed to exactly those who are admitted authors, are somebody else, are
/// trusted and are not readers themselves yet, whoever else is.
pub proof fn law_consent_is_owed_exactly(
    ch: ChannelState,
    trusted: Seq<Digest32>,
    readers: Seq<Digest32>,
    who: Digest32,
)
    requires
        ch.wf(),
    ensures
        lists::pick(
            ops::ids_of(ch.authors.rows()),
            ops::owes_consent(ch.sender.author_id, trusted, readers),
        ).contains(who) <==> {
            &&& ch.authors.map().contains_key(who@)
            &&& who != ch.sender.author_id
            &&& trusted.contains(who)
            &&& !readers.contains(who)
        },
{
    lists::lemma_pick_contains(
        ops::ids_of(ch.authors.rows()),
        ops::owes_consent(ch.sender.author_id, trusted, readers),
        who,
    );
    lemma_ids(ch.authors.rows(), who);
}

/// Consenting to one member takes nothing from another: who else is a reader makes no
/// difference to whether a member is owed a consent.
pub proof fn law_consents_are_owed_one_by_one(
    ch: ChannelState,
    trusted: Seq<Digest32>,
    readers: Seq<Digest32>,
    more: Digest32,
    who: Digest32,
)
    requires
        ch.wf(),
        more != who,
    ensures
        lists::pick(
            ops::ids_of(ch.authors.rows()),
            ops::owes_consent(ch.sender.author_id, trusted, readers),
        ).contains(who) <==> lists::pick(
            ops::ids_of(ch.authors.rows()),
            ops::owes_consent(ch.sender.author_id, trusted, readers.push(more)),
        ).contains(who),
        !lists::pick(
            ops::ids_of(ch.authors.rows()),
            ops::owes_consent(ch.sender.author_id, trusted, readers.push(more)),
        ).contains(more),
{
    let now = readers.push(more);
    law_consent_is_owed_exactly(ch, trusted, readers, who);
    law_consent_is_owed_exactly(ch, trusted, now, who);
    law_consent_is_owed_exactly(ch, trusted, now, more);
    assert(now[readers.len() as int] == more);
    if readers.contains(who) {
        let i = choose|i: int| 0 <= i < readers.len() && readers[i] == who;
        assert(now[i] == who);
    }
    if now.contains(who) {
        let i = choose|i: int| 0 <= i < now.len() && now[i] == who;
        assert(readers[i] == who);
    }
}

/// The current generation is owed to exactly those readers that are somebody else and whose
/// ledger row is missing or behind it.
pub proof fn law_rekey_is_owed_exactly(ch: ChannelState, readers: Seq<Digest32>, who: Digest32)
    ensures
        lists::pick(readers, ops::owes_rekey(ch)).contains(who) <==> {
            &&& readers.contains(who)
            &&& who != ch.sender.author_id
            &&& ch.delivered.map().contains_key(who@) ==> ch.delivered.map()[who@]
                < ch.sender.chain_id
        },
{
    lists::lemma_pick_contains(readers, ops::owes_rekey(ch), who);
}

/// A consent is revoked exactly where it is another's and was given, the channel is sound, and
/// a new generation was made that nothing was sent under yet.
pub proof fn law_revocation_is_allowed_exactly(
    ch: ChannelState,
    target: Digest32,
    readers: Seq<Digest32>,
    next: Result<SenderChain, Error>,
)
    ensures
        ops::revoke_fault(ch, target, readers) is None <==> target != ch.sender.author_id
            && readers.contains(target),
        target != ch.sender.author_id && !readers.contains(target) ==> ops::revoke_fault(
            ch,
            target,
            readers,
        ) == Some(Error::MalformedGovernance("no consent to revoke")),
        ops::rotate_fault(ch, next) is None <==> !ch.poisoned && next is Ok
            && next->Ok_0.next_iteration == 0,
{
}

/// A key becomes an author's exactly where it is one already, or its fingerprint is new and
/// there is room for it; another key under an admitted fingerprint never replaces it.
pub proof fn law_author_is_admitted_exactly(ch: ChannelState, key: CompositePublicKey)
    ensures
        ops::admit_fault(ch.authors, key) is None <==> {
            if ch.authors.map().contains_key(key.fingerprint@) {
                ch.authors.map()[key.fingerprint@].bytes@ == key.bytes@
            } else {
                ch.authors.rows().len() < MAX_AUTHORS
            }
        },
        ch.authors.map().contains_key(key.fingerprint@) && ch.authors.map()[key.fingerprint@].bytes@
            != key.bytes@ ==> ops::admit_fault(ch.authors, key) == Some(
            Error::MalformedGovernance("another key is already admitted for this fingerprint"),
        ),
{
}

/// The evidence for a key from a board holds exactly where the genesis names it as the
/// creator's, or an admitted author witnessed its join.
pub proof fn law_evidence_holds_exactly(
    ch: ChannelState,
    key: CompositePublicKey,
    admission: Admission,
    witness: Result<(), Error>,
)
    ensures
        ops::evidence_fault(ch, key, admission, witness) is None <==> match admission {
            Admission::Creator => key.fingerprint == ch.genesis.creator.fingerprint,
            Admission::Witnessed(w) => ch.authors.map().contains_key(w.witness_id@)
                && witness is Ok,
        },
{
}

/// The ledger says what was delivered last, and nothing of whoever was delivered nothing.
pub proof fn law_ledger_says_what_was_delivered(ch: ChannelState, target: Digest32)
    ensures
        ch.delivered.map().contains_key(target@) ==> ops::delivered_to(ch, target)
            == ch.delivered.map()[target@],
        !ch.delivered.map().contains_key(target@) ==> ops::delivered_to(ch, target) == 0,
{
}

/// A rotation writes the next chain and the origins that retain it, and keeps everything of
/// the channel but those; the generation is retained behind those that were.
pub proof fn law_rotation_changes_nothing_else(
    ch: ChannelState,
    before: ChannelState,
    next: SenderChain,
    origin_state: Seq<u8>,
    rotation: ops::Rotation,
)
    requires
        ops::rotating(ch, before, next, origin_state, rotation),
    ensures
        ch.log == before.log,
        ch.authors == before.authors,
        ch.receivers == before.receivers,
        ch.timeline == before.timeline,
        ch.delivered == before.delivered,
        ch.sender == before.sender,
        ch.origins.held@.len() == before.origins.held@.len() + 1,
        ch.origins.held@.last() == next.chain_id,
        forall|i: int|
            0 <= i < before.origins.held@.len() ==> #[trigger] ch.origins.held@[i]
                == before.origins.held@[i],
        rotation.writes@.len() == 2,
        exists|i: int|
            0 <= i < 2 && (#[trigger] rotation.writes@[i]).id == segments::SEG_SENDER
                && rotation.writes@[i].bytes@ == next.state@,
        exists|i: int|
            0 <= i < 2 && (#[trigger] rotation.writes@[i]).id == segments::SEG_ORIGINS
                && rotation.writes@[i].bytes@ == origin_state,
{
    let v = state::writes_view(rotation.writes@);
    assert(v.len() == 2);
    assert(v[0].1 == rotation.writes@[0].id && v[0].2 == rotation.writes@[0].bytes@);
    assert(v[1].1 == rotation.writes@[1].id && v[1].2 == rotation.writes@[1].bytes@);
}

/// A later generation is of the same author and above every earlier one.
pub proof fn law_generations_go_up(a: SenderChain, b: SenderChain, c: SenderChain)
    ensures
        !ops::follows(a, a),
        ops::follows(b, a) && ops::follows(c, b) ==> ops::follows(c, a),
        ops::follows(b, a) ==> !ops::follows(a, b),
        a.author_id == b.author_id && a.chain_id != b.chain_id ==> ops::follows(a, b)
            || ops::follows(b, a),
        a.author_id != b.author_id ==> !ops::follows(a, b),
{
}

/// A merge of anchors counts as a change exactly if there is a node or an address more or
/// less than before: an address that is added to a node already named is a change.
pub proof fn law_added_address_is_a_change(before: BootstrapSet, after: BootstrapSet)
    ensures
        after.nodes@.len() != before.nodes@.len() ==> !ops::anchors_unchanged(before, after),
        bootstrap::endpoints_in(after.nodes@) != bootstrap::endpoints_in(before.nodes@)
            ==> !ops::anchors_unchanged(before, after),
        after == before ==> ops::anchors_unchanged(before, after),
        after.nodes@.len() == before.nodes@.len() && bootstrap::endpoints_in(after.nodes@)
            == bootstrap::endpoints_in(before.nodes@) ==> ops::anchors_unchanged(before, after),
{
}

} // verus!
