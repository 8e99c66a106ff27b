//! What holds of the copies that an anchor keeps: what of a session is filed, and which
//! copies are kept and opened.

use vstd::prelude::*;

use crate::anchor::copy::{self, AnchorState, StoredAnchor};
use crate::anchor::{self, pass};
use crate::cbor;
use crate::channel::feeds;
use crate::channel::log;
use crate::channel::opening;
use crate::channel::segments::{self, AuthorsRead};
use crate::channel::state::{Genesis, LogEntry, StoredEntry};
use crate::channel::sync;
use crate::error::Error;
use crate::hash::Digest32;
use crate::identity::CompositePublicKey;

verus! {

// ---- what a session brought --------------------------------------------------

/// Everything of a feed past a place and up to another is gathered.
pub proof fn law_feed_is_gathered_whole(
    lg: Seq<LogEntry>,
    author: Digest32,
    from: u64,
    to: u64,
    i: int,
)
    requires
        feeds::stands(lg, i),
        lg[i].author_id == author,
        from < lg[i].seq <= to,
    ensures
        pass::hashes_in(lg, author, from, to).contains(lg[i].entry_hash),
    decreases to,
{
    let front = pass::hashes_in(lg, author, from, (to - 1) as u64);
    let here = pass::hash_at(lg, author, to);
    let all = pass::hashes_in(lg, author, from, to);
    if lg[i].seq == to {
        feeds::lemma_found(lg, i);
        assert(all[front.len() as int] == lg[i].entry_hash);
    } else {
        law_feed_is_gathered_whole(lg, author, from, (to - 1) as u64, i);
        let k = front.index_of(lg[i].entry_hash);
        assert(all[k] == lg[i].entry_hash);
    }
}

/// An earlier part of a feed comes before a later one, and nothing comes between.
pub proof fn law_feed_is_gathered_in_order(
    lg: Seq<LogEntry>,
    author: Digest32,
    from: u64,
    mid: u64,
    to: u64,
)
    requires
        from <= mid <= to,
    ensures
        pass::hashes_in(lg, author, from, to) == pass::hashes_in(lg, author, from, mid)
            + pass::hashes_in(lg, author, mid, to),
    decreases to,
{
    let first = pass::hashes_in(lg, author, from, mid);
    if mid == to {
        assert(first + pass::hashes_in(lg, author, mid, to) =~= first);
    } else {
        let less = (to - 1) as u64;
        law_feed_is_gathered_in_order(lg, author, from, mid, less);
        let here = pass::hash_at(lg, author, to);
        assert(first + (pass::hashes_in(lg, author, mid, less) + here) =~= (first
            + pass::hashes_in(lg, author, mid, less)) + here);
    }
}

/// Every entry that stands past the head of an author who was known is filed, whoever else
/// was known and whether or not its payload is there.
pub proof fn law_everything_new_is_filed(
    lg: Seq<LogEntry>,
    heads: Seq<(Digest32, u64)>,
    i: int,
    k: int,
)
    requires
        feeds::stands(lg, i),
        0 <= k < heads.len(),
        heads[k].0 == lg[i].author_id,
        heads[k].1 < lg[i].seq,
    ensures
        pass::hashes_past(lg, heads).contains(lg[i].entry_hash),
    decreases heads.len(),
{
    let front = pass::hashes_past(lg, heads.drop_last());
    let (author, head) = heads.last();
    let here = pass::hashes_in(lg, author, head, log::max_seq(lg, author));
    let all = pass::hashes_past(lg, heads);
    let h = lg[i].entry_hash;
    if k == heads.len() - 1 {
        feeds::law_feed_ends_at_its_highest_entry(lg, author);
        law_feed_is_gathered_whole(lg, author, head, log::max_seq(lg, author), i);
        let n = here.index_of(h);
        assert(all[front.len() + n] == h);
    } else {
        assert(heads.drop_last()[k] == heads[k]);
        law_everything_new_is_filed(lg, heads.drop_last(), i, k);
        let n = front.index_of(h);
        assert(all[n] == h);
    }
}

/// The heads that a session begins with name every author on file once, with the highest
/// place of that author's entries.
pub proof fn law_heads_are_the_authors(st: AnchorState, k: int, i: int)
    requires
        0 <= k < st.authors.rows().len(),
        0 <= i < st.log@.len(),
    ensures
        pass::heads_of(st).len() == st.authors.rows().len(),
        pass::heads_of(st)[k].0 == st.authors.rows()[k].0,
        st.log@[i].author_id == st.authors.rows()[k].0 ==> st.log@[i].seq
            <= pass::heads_of(st)[k].1,
        pass::heads_of(st)[k].1 > 0 ==> exists|j: int|
            0 <= j < st.log@.len() && (#[trigger] st.log@[j]).author_id == st.authors.rows()[k].0
                && st.log@[j].seq == pass::heads_of(st)[k].1,
{
    feeds::law_feed_ends_at_its_highest_entry(st.log@, st.authors.rows()[k].0);
}

/// An entry that arrived is filed exactly if it is in the log and either was pruned or has
/// a payload of one of the two kinds.
pub proof fn law_entry_is_filed_exactly(lg: Seq<LogEntry>, h: Digest32, framed: bool, i: int)
    ensures
        (forall|j: int| 0 <= j < lg.len() ==> (#[trigger] lg[j]).entry_hash != h)
            ==> pass::filing_fault(lg, h, framed) is Some,
        0 <= i < lg.len() && lg[i].entry_hash == h && (forall|j: int|
            0 <= j < i ==> (#[trigger] lg[j]).entry_hash != h) ==> {
            &&& pass::filing_fault(lg, h, framed) is None <==> (lg[i].payload is None || framed
                || segments::is_group_message(lg[i].payload->Some_0@))
            &&& pass::wire_of(lg, h) == lg[i].wire@
        },
{
    feeds::law_hash_finds_its_first_entry(lg, h);
}

/// An entry governs exactly if it has a payload that is framed and no message.
pub proof fn law_entry_governs_exactly(entry: LogEntry, framed: bool)
    ensures
        pass::governs(entry, framed) <==> framed && entry.payload is Some
            && !segments::is_group_message(entry.payload->Some_0@),
{
}

/// The facts among the entries that arrived are counted one by one: none exactly if no
/// entry is one, all exactly if each is, and one more for each further that is.
pub proof fn law_facts_are_counted(
    lg: Seq<LogEntry>,
    arrived: Seq<Digest32>,
    framed: Seq<bool>,
    n: nat,
)
    ensures
        pass::governing(lg, arrived, framed, n) <= n,
        pass::governing(lg, arrived, framed, n) == 0 <==> forall|i: int|
            0 <= i < n ==> !pass::governs(
                lg[sync::by_hash(lg, #[trigger] arrived[i])->Some_0],
                framed[i],
            ),
        pass::governing(lg, arrived, framed, n) == n <==> forall|i: int|
            0 <= i < n ==> pass::governs(
                lg[sync::by_hash(lg, #[trigger] arrived[i])->Some_0],
                framed[i],
            ),
        pass::governing(lg, arrived, framed, n + 1) - pass::governing(lg, arrived, framed, n) == (
        if pass::governs(lg[sync::by_hash(lg, arrived[n as int])->Some_0], framed[n as int]) {
            1int
        } else {
            0
        }),
    decreases n,
{
    if n > 0 {
        law_facts_are_counted(lg, arrived, framed, (n - 1) as nat);
        let last = arrived[n - 1];
        assert(last == arrived[n - 1]);
    }
}

/// Segments are numbered one after another.
pub proof fn law_segments_are_numbered_on(n: u64, k: nat)
    requires
        n + k <= u64::MAX,
    ensures
        pass::segment_number(n, k) == n + k,
    decreases k,
{
    if k > 0 {
        law_segments_are_numbered_on(n, (k - 1) as nat);
    }
}

/// A pass stops at the first entry that cannot be filed or written: every entry before it
/// was filed and written, and the copy is ahead of its store exactly if it was the write
/// that failed.
pub proof fn law_pass_stops_at_the_first_fault(
    k: int,
    e: Error,
    lg: Seq<LogEntry>,
    arrived: Seq<Digest32>,
    framed: Seq<bool>,
    written: Seq<Result<(), Error>>,
    writes: nat,
    poisoned: bool,
    i: int,
)
    requires
        pass::stopped_at(k, e, lg, arrived, framed, written, writes, poisoned),
        0 <= i < k,
    ensures
        pass::filing_fault(lg, arrived[i], framed[i]) is None,
        written[i] is Ok,
        poisoned <==> writes == k + 1,
        poisoned ==> written[k] == Err::<(), Error>(e),
        !poisoned ==> writes == k && pass::filing_fault(lg, arrived[k], framed[k]) == Some(e),
{
    let f = pass::stop_at(lg, arrived, framed, written);
    opening::law_first_fault_is_told(k as nat, f);
    assert(f(i) is None);
}

// ---- the copies --------------------------------------------------------------

/// A kept entry has no fault exactly if it decodes, is by an author on file, was pruned or
/// is of one of the two kinds, and is accepted.
pub proof fn law_kept_entry_is_sound_exactly(
    authors: Map<Seq<u8>, CompositePublicKey>,
    entries: Seq<StoredEntry>,
    i: int,
)
    ensures
        copy::kept_fault(authors, entries)(i) is None <==> {
            let s = entries[i];
            &&& s.entry is Ok
            &&& authors.contains_key(s.entry->Ok_0.author_id@)
            &&& s.entry->Ok_0.payload is None || s.framed || segments::is_group_message(
                s.entry->Ok_0.payload->Some_0@,
            )
            &&& s.accepted
        },
{
}

/// A copy opens exactly if there is one, its meta is sound and this channel's, and every
/// entry in it is.
pub proof fn law_copy_opens_exactly(s: StoredAnchor, channel_id: Digest32)
    ensures
        copy::reopen_fault(s, channel_id) is None <==> {
            &&& s.meta is Ok && s.meta->Ok_0 is Some
            &&& anchor::meta_fault(s.meta->Ok_0->Some_0@, s.genesis, s.authors, s.keys@) is None
            &&& s.verified is Ok
            &&& s.genesis->Ok_0.channel_id == channel_id
            &&& s.entries is Ok
            &&& forall|i: int|
                0 <= i < s.entries->Ok_0@.len() ==> #[trigger] copy::kept_fault(
                    s.known(),
                    s.entries->Ok_0@,
                )(i) is None
        },
{
    opening::law_first_fault_is_told(
        s.entries->Ok_0@.len(),
        copy::kept_fault(s.known(), s.entries->Ok_0@),
    );
}

/// A channel is anchored anew exactly if its genesis verifies and there is no copy of it
/// yet; a genesis that does not verify is told first.
pub proof fn law_channel_is_anchored_once(verified: Result<(), Error>, filed: Result<bool, Error>)
    ensures
        copy::create_fault(verified, filed) is None <==> verified is Ok && filed == Ok::<
            bool,
            Error,
        >(false),
        verified is Err ==> copy::create_fault(verified, filed) == Some(verified->Err_0),
        verified is Ok && filed is Err ==> copy::create_fault(verified, filed) == Some(
            filed->Err_0,
        ),
{
}

/// A key is on file, is in conflict with one that is, or is new; exactly one of the three.
/// Filing a new key puts it on file and touches no other.
pub proof fn law_key_is_filed_once(
    authors: Map<Seq<u8>, CompositePublicKey>,
    key: CompositePublicKey,
    other: CompositePublicKey,
)
    ensures
        !(copy::on_file(authors, key) && copy::conflicts(authors, key)),
        copy::on_file(authors, key) || copy::conflicts(authors, key) || !authors.contains_key(
            key.fingerprint@,
        ),
        copy::on_file(authors.insert(key.fingerprint@, key), key),
        other.fingerprint@ != key.fingerprint@ ==> {
            &&& copy::on_file(authors.insert(key.fingerprint@, key), other) == copy::on_file(
                authors,
                other,
            )
            &&& copy::conflicts(authors.insert(key.fingerprint@, key), other) == copy::conflicts(
                authors,
                other,
            )
        },
{
}

/// Filing keys keeps what was on file, puts each of them on file, and nobody else.
pub proof fn law_keys_are_filed_whole(
    before: Map<Seq<u8>, CompositePublicKey>,
    after: Map<Seq<u8>, CompositePublicKey>,
    keys: Seq<CompositePublicKey>,
    i: int,
    k: Seq<u8>,
)
    requires
        copy::filed_all(before, after, keys),
        0 <= i < keys.len(),
    ensures
        after.contains_key(keys[i].fingerprint@),
        after[keys[i].fingerprint@].bytes@ == keys[i].bytes@,
        before.contains_key(k) ==> after.contains_key(k) && after[k] == before[k],
        after.contains_key(k) <==> before.contains_key(k) || exists|j: int|
            0 <= j < keys.len() && (#[trigger] keys[j]).fingerprint@ == k,
{
    assert(copy::on_file(after, keys[i]));
    if exists|j: int| 0 <= j < keys.len() && (#[trigger] keys[j]).fingerprint@ == k {
        let j = choose|j: int| 0 <= j < keys.len() && (#[trigger] keys[j]).fingerprint@ == k;
        assert(copy::on_file(after, keys[j]));
    }
    if after.contains_key(k) && !before.contains_key(k) {
        assert(copy::named_in(keys, k));
    }
}

/// The meta of a copy is sound exactly if it reads to its end, its genesis decodes, and every
/// author in it has the key that it names.
pub proof fn law_meta_is_sound_exactly(
    b: Seq<u8>,
    genesis: Result<Genesis, Error>,
    read: AuthorsRead,
    decoded: Seq<Result<CompositePublicKey, Error>>,
)
    ensures
        anchor::meta_fault(b, genesis, read, decoded) is None <==> {
            &&& anchor::meta_front(b).bad is None
            &&& genesis is Ok
            &&& anchor::meta_rest(b).bad is None
            &&& anchor::meta_rest(b).end(cbor::raw()).bad is None
            &&& read.fault is None
            &&& forall|i: int|
                0 <= i < read.rows@.len() ==> #[trigger] segments::author_fault(
                    read.rows@,
                    decoded,
                )(i) is None
        },
{
    opening::law_rows_are_taken_up_whole(
        read.rows@.len(),
        segments::author_fault(read.rows@, decoded),
        read.fault,
    );
}

} // verus!
