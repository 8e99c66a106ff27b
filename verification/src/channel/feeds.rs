//! What holds of the feeds in a log: where they end, what stands at a place of one, what the
//! next entry links to, and which entries are past what was there before.

use vstd::prelude::*;

use crate::channel::log::{self, EntrySkeleton};
use crate::channel::segments::{self, Rendered};
use crate::channel::state::{ChannelState, LogEntry};
use crate::channel::sync;
use crate::hash::{self, Digest32};
use crate::lists;
use crate::table::{self, Key};

verus! {

/// Whether the entry at `i` is the one at its place of its author's feed: the first that the
/// log holds there.
pub open spec fn stands(lg: Seq<LogEntry>, i: int) -> bool {
    &&& 0 <= i < lg.len()
    &&& forall|j: int|
        0 <= j < i ==> (#[trigger] lg[j]).author_id != lg[i].author_id || lg[j].seq != lg[i].seq
}

/// A feed ends at the highest place that an entry of its author's has: no entry is past it,
/// one is there, and it is 0 where the author has none.
pub proof fn law_feed_ends_at_its_highest_entry(lg: Seq<LogEntry>, author: Digest32)
    ensures
        forall|i: int|
            0 <= i < lg.len() && (#[trigger] lg[i]).author_id == author ==> lg[i].seq
                <= log::max_seq(lg, author),
        log::max_seq(lg, author) > 0 ==> exists|i: int|
            0 <= i < lg.len() && (#[trigger] lg[i]).author_id == author && lg[i].seq
                == log::max_seq(lg, author),
    decreases lg.len(),
{
    if lg.len() > 0 {
        let front = lg.drop_last();
        law_feed_ends_at_its_highest_entry(front, author);
        assert forall|i: int| 0 <= i < lg.len() && (#[trigger] lg[i]).author_id == author implies
            lg[i].seq <= log::max_seq(lg, author) by {
            if i < front.len() {
                assert(front[i] == lg[i]);
            }
        }
        if log::max_seq(lg, author) > 0 {
            if log::max_seq(lg, author) == log::max_seq(front, author) {
                let i = choose|i: int|
                    0 <= i < front.len() && (#[trigger] front[i]).author_id == author
                        && front[i].seq == log::max_seq(front, author);
                assert(lg[i] == front[i]);
            } else {
                assert(lg[lg.len() - 1] == lg.last());
            }
        }
    }
}

/// What is found at a place of a feed is the first entry that its author has there, and
/// nothing is found only where the author has none there.
pub proof fn law_place_holds_its_first_entry(lg: Seq<LogEntry>, author: Digest32, seq: u64)
    ensures
        match log::feed_at(lg, author, seq) {
            Some(i) => stands(lg, i) && lg[i].author_id == author && lg[i].seq == seq,
            None => forall|j: int|
                0 <= j < lg.len() ==> (#[trigger] lg[j]).author_id != author || lg[j].seq != seq,
        },
    decreases lg.len(),
{
    if lg.len() > 0 {
        let front = lg.drop_last();
        law_place_holds_its_first_entry(front, author, seq);
        match log::feed_at(front, author, seq) {
            Some(i) => {
                assert(lg[i] == front[i]);
                assert forall|j: int| 0 <= j < i implies (#[trigger] lg[j]).author_id
                    != lg[i].author_id || lg[j].seq != lg[i].seq by {
                    assert(front[j] == lg[j]);
                }
            },
            None => {
                assert forall|j: int| 0 <= j < lg.len() - 1 implies (#[trigger] lg[j]).author_id
                    != author || lg[j].seq != seq by {
                    assert(front[j] == lg[j]);
                }
            },
        }
    }
}

/// The entry that stands at a place is the one that is found there.
pub proof fn lemma_found(lg: Seq<LogEntry>, i: int)
    requires
        stands(lg, i),
    ensures
        log::feed_at(lg, lg[i].author_id, lg[i].seq) == Some(i),
{
    law_place_holds_its_first_entry(lg, lg[i].author_id, lg[i].seq);
    let k = log::feed_at(lg, lg[i].author_id, lg[i].seq)->Some_0;
    if k < i {
        assert(lg[k].author_id == lg[i].author_id);
    }
    if i < k {
        assert(lg[i].author_id == lg[k].author_id);
    }
}

/// An author's next entry goes on where the feed ends, and links back to it: to the last
/// entry of the feed, and to the one at the place that the skip link names. `s` is the next
/// entry, `i` an entry of the author's. An author without entries begins at the first place,
/// and links to nothing.
pub proof fn law_next_entry_links_back(
    lg: Seq<LogEntry>,
    author: Digest32,
    lipmaa: u64,
    s: EntrySkeleton,
    i: int,
)
    requires
        log::max_seq(lg, author) < u64::MAX,
        s.seq == log::max_seq(lg, author) + 1,
        s.prev_hash@ == log::link(lg, author, s.seq, (s.seq - 1) as u64),
        s.lipmaa_backlink@ == log::link(lg, author, s.seq, lipmaa),
    ensures
        forall|j: int|
            0 <= j < lg.len() && (#[trigger] lg[j]).author_id == author ==> lg[j].seq < s.seq,
        stands(lg, i) && lg[i].author_id == author && lg[i].seq == s.seq - 1 && lg[i].seq > 0
            ==> s.prev_hash == lg[i].entry_hash,
        stands(lg, i) && lg[i].author_id == author && lg[i].seq == lipmaa && lg[i].seq > 0
            ==> s.lipmaa_backlink == lg[i].entry_hash,
        (forall|j: int| 0 <= j < lg.len() ==> (#[trigger] lg[j]).author_id != author) ==> {
            &&& s.seq == 1
            &&& s.prev_hash@ == Seq::new(32, |k: int| 0u8)
            &&& s.lipmaa_backlink@ == Seq::new(32, |k: int| 0u8)
        },
        s.seq > 1 ==> exists|j: int|
            stands(lg, j) && (#[trigger] lg[j]).author_id == author && lg[j].seq == s.seq - 1
                && s.prev_hash == lg[j].entry_hash,
{
    law_feed_ends_at_its_highest_entry(lg, author);
    if stands(lg, i) && lg[i].author_id == author {
        lemma_found(lg, i);
        hash::lemma_digest_ext(s.prev_hash, lg[i].entry_hash);
        hash::lemma_digest_ext(s.lipmaa_backlink, lg[i].entry_hash);
    }
    if s.seq > 1 {
        law_place_holds_its_first_entry(lg, author, (s.seq - 1) as u64);
        let k = choose|k: int|
            0 <= k < lg.len() && (#[trigger] lg[k]).author_id == author && lg[k].seq
                == log::max_seq(lg, author);
        assert(lg[k].seq == s.seq - 1);
        let j = log::feed_at(lg, author, (s.seq - 1) as u64)->Some_0;
        hash::lemma_digest_ext(s.prev_hash, lg[j].entry_hash);
        assert(lg[j].author_id == author);
    }
}

/// An entry is found by its hash: the first that has it, and none only where no entry has it.
pub proof fn law_hash_finds_its_first_entry(lg: Seq<LogEntry>, h: Digest32)
    ensures
        match sync::by_hash(lg, h) {
            Some(i) => {
                &&& 0 <= i < lg.len()
                &&& lg[i].entry_hash == h
                &&& forall|j: int| 0 <= j < i ==> (#[trigger] lg[j]).entry_hash != h
            },
            None => forall|j: int| 0 <= j < lg.len() ==> (#[trigger] lg[j]).entry_hash != h,
        },
    decreases lg.len(),
{
    if lg.len() > 0 {
        let front = lg.drop_last();
        law_hash_finds_its_first_entry(front, h);
        assert forall|j: int| 0 <= j < front.len() implies front[j] == #[trigger] lg[j] by {}
    }
}

// ---- what is past the heads --------------------------------------------------

/// The entry at `i` as something that arrived.
pub open spec fn news(lg: Seq<LogEntry>, i: int) -> (Digest32, Digest32, Option<Seq<u8>>) {
    (
        lg[i].author_id,
        lg[i].entry_hash,
        match lg[i].payload {
            Some(p) => Some(p@),
            None => None,
        },
    )
}

/// A feed is listed in its order: what stands up to a place is in front of what follows it.
pub proof fn law_earlier_places_are_listed_first(
    lg: Seq<LogEntry>,
    author: Digest32,
    from: u64,
    mid: u64,
    to: u64,
)
    requires
        mid <= to,
    ensures
        log::arrived_in(lg, author, from, mid).is_prefix_of(
            log::arrived_in(lg, author, from, to),
        ),
    decreases to,
{
    if mid < to && from < to {
        law_earlier_places_are_listed_first(lg, author, from, mid, (to - 1) as u64);
        let all = log::arrived_in(lg, author, from, to);
        let less = log::arrived_in(lg, author, from, (to - 1) as u64);
        let first = log::arrived_in(lg, author, from, mid);
        assert(less.subrange(0, first.len() as int) =~= first);
        assert(all.subrange(0, first.len() as int) =~= first);
    }
}

/// Everything of a feed past a place, and nothing else, is listed.
pub proof fn law_feed_is_listed_whole(
    lg: Seq<LogEntry>,
    author: Digest32,
    from: u64,
    to: u64,
    n: int,
)
    ensures
        forall|i: int|
            stands(lg, i) && (#[trigger] lg[i]).author_id == author && from < lg[i].seq <= to
                ==> log::arrived_in(lg, author, from, to).contains(news(lg, i)),
        0 <= n < log::arrived_in(lg, author, from, to).len() ==> exists|i: int|
            stands(lg, i) && (#[trigger] lg[i]).author_id == author && from < lg[i].seq <= to
                && log::arrived_in(lg, author, from, to)[n] == news(lg, i),
    decreases to,
{
    if to > from {
        let less = (to - 1) as u64;
        let front = log::arrived_in(lg, author, from, less);
        let here = log::arrived_at(lg, author, to);
        let all = log::arrived_in(lg, author, from, to);
        law_feed_is_listed_whole(lg, author, from, less, n);
        law_place_holds_its_first_entry(lg, author, to);
        assert forall|i: int|
            stands(lg, i) && (#[trigger] lg[i]).author_id == author && from < lg[i].seq
                <= to implies all.contains(news(lg, i)) by {
            if lg[i].seq == to {
                lemma_found(lg, i);
                assert(here[0] == news(lg, i));
                assert(all[front.len() as int] == news(lg, i));
            } else {
                assert(front.contains(news(lg, i)));
                let k = choose|k: int| 0 <= k < front.len() && front[k] == news(lg, i);
                assert(all[k] == news(lg, i));
            }
        }
        if 0 <= n < all.len() {
            if n < front.len() {
                assert(all[n] == front[n]);
            } else {
                let i = log::feed_at(lg, author, to)->Some_0;
                assert(all[n] == here[0]);
                assert(here[0] == news(lg, i));
                assert(lg[i].author_id == author);
            }
        }
    }
}

/// What is past the heads is all of it: an entry arrives exactly where its author is among the
/// heads, and it stands past that author's head. `a` is an entry as it arrives.
pub proof fn law_everything_past_the_heads_arrives(
    lg: Seq<LogEntry>,
    heads: Seq<(Digest32, u64)>,
    i: int,
    k: int,
    n: int,
)
    ensures
        stands(lg, i) && 0 <= k < heads.len() && heads[k].0 == lg[i].author_id && heads[k].1
            < lg[i].seq ==> log::arrivals(lg, heads).contains(news(lg, i)),
        0 <= n < log::arrivals(lg, heads).len() ==> exists|j: int, m: int|
            #![trigger lg[j], heads[m]]
            stands(lg, j) && 0 <= m < heads.len() && heads[m].0 == lg[j].author_id && heads[m].1
                < lg[j].seq && log::arrivals(lg, heads)[n] == news(lg, j),
    decreases heads.len(),
{
    if heads.len() > 0 {
        let front = heads.drop_last();
        let (author, head) = heads.last();
        let top = log::max_seq(lg, author);
        let before = log::arrivals(lg, front);
        let here = log::arrived_in(lg, author, head, top);
        let all = log::arrivals(lg, heads);
        law_everything_past_the_heads_arrives(lg, front, i, k, n);
        law_feed_ends_at_its_highest_entry(lg, author);
        law_feed_is_listed_whole(lg, author, head, top, n - before.len());
        if stands(lg, i) && 0 <= k < heads.len() && heads[k].0 == lg[i].author_id && heads[k].1
            < lg[i].seq {
            if k < front.len() {
                assert(front[k] == heads[k]);
                let p = choose|p: int| 0 <= p < before.len() && before[p] == news(lg, i);
                assert(all[p] == news(lg, i));
            } else {
                assert(here.contains(news(lg, i)));
                let p = choose|p: int| 0 <= p < here.len() && here[p] == news(lg, i);
                assert(all[before.len() + p] == news(lg, i));
            }
        }
        if 0 <= n < all.len() {
            if n < before.len() {
                assert(all[n] == before[n]);
                let (j, m) = choose|j: int, m: int|
                    #![trigger lg[j], front[m]]
                    stands(lg, j) && 0 <= m < front.len() && front[m].0 == lg[j].author_id
                        && front[m].1 < lg[j].seq && before[n] == news(lg, j);
                assert(heads[m] == front[m]);
                assert(lg[j].author_id == heads[m].0);
            } else {
                assert(all[n] == here[n - before.len()]);
                let j = choose|j: int|
                    stands(lg, j) && (#[trigger] lg[j]).author_id == author && head < lg[j].seq
                        <= top && here[n - before.len()] == news(lg, j);
                let m = heads.len() - 1;
                assert(heads[m] == (author, head));
                assert(lg[j].author_id == heads[m].0);
            }
        }
    }
}

/// The heads of a channel are those of its authors, each with the highest place that its
/// feed reaches: an entry by an admitted author is never past the author's own head, and every
/// author has one.
pub proof fn law_heads_cover_every_author(ch: ChannelState, i: int, a: Seq<u8>)
    requires
        ch.wf(),
    ensures
        log::heads_of(ch).len() == ch.authors.rows().len(),
        ch.authors.map().contains_key(a) ==> exists|k: int|
            0 <= k < log::heads_of(ch).len() && (#[trigger] log::heads_of(ch)[k]).0@ == a,
        forall|k: int|
            0 <= i < ch.log@.len() && 0 <= k < log::heads_of(ch).len() && (
            #[trigger] log::heads_of(ch)[k]).0 == ch.log@[i].author_id ==> ch.log@[i].seq
                <= log::heads_of(ch)[k].1,
{
    let rows = ch.authors.rows();
    let heads = log::heads_of(ch);
    table::lemma_map_of(rows);
    if ch.authors.map().contains_key(a) {
        let k = choose|k: int| 0 <= k < rows.len() && (#[trigger] rows[k]).0.key_bytes() == a;
        assert(heads[k].0@ == a);
    }
    assert forall|k: int|
        0 <= i < ch.log@.len() && 0 <= k < heads.len() && (#[trigger] heads[k]).0
            == ch.log@[i].author_id implies ch.log@[i].seq <= heads[k].1 by {
        law_feed_ends_at_its_highest_entry(ch.log@, heads[k].0);
    }
}

/// What is tried again when an author's key arrives is every message of the author's that
/// stands in the log, past the beginning of the feed, and is not shown yet; and nothing else.
pub proof fn law_every_unread_message_is_tried_again(
    lg: Seq<LogEntry>,
    timeline: Seq<Rendered>,
    author: Digest32,
    i: int,
    n: int,
)
    ensures
        ({
            let pending = lists::pick(
                log::arrived_in(lg, author, 0, log::max_seq(lg, author)),
                log::unshown_content(timeline),
            );
            &&& stands(lg, i) && lg[i].author_id == author && lg[i].seq > 0 && lg[i].payload is Some
                && vstd::utf8::encode_utf8("vox/group-msg/v1"@).is_prefix_of(
                lg[i].payload->Some_0@,
            ) && (forall|t: int|
                0 <= t < timeline.len() ==> (#[trigger] timeline[t]).entry_hash
                    != lg[i].entry_hash) ==> pending.contains(news(lg, i))
            &&& 0 <= n < pending.len() ==> exists|j: int|
                stands(lg, j) && (#[trigger] lg[j]).author_id == author && pending[n] == news(lg, j)
                    && lg[j].payload is Some && (forall|t: int|
                    0 <= t < timeline.len() ==> (#[trigger] timeline[t]).entry_hash
                        != lg[j].entry_hash)
        }),
{
    let all = log::arrived_in(lg, author, 0, log::max_seq(lg, author));
    let p = log::unshown_content(timeline);
    let pending = lists::pick(all, p);
    law_feed_ends_at_its_highest_entry(lg, author);
    law_feed_is_listed_whole(lg, author, 0, log::max_seq(lg, author), 0);
    if stands(lg, i) && lg[i].author_id == author && lg[i].seq > 0 {
        assert(all.contains(news(lg, i)));
        lists::lemma_pick_contains(all, p, news(lg, i));
        assert(segments::GROUP_MSG_SIGN_DOMAIN@ == "vox/group-msg/v1"@);
    }
    if 0 <= n < pending.len() {
        let a = pending[n];
        assert(pending.contains(a));
        lists::lemma_pick_contains(all, p, a);
        let m = choose|m: int| 0 <= m < all.len() && all[m] == a;
        law_feed_is_listed_whole(lg, author, 0, log::max_seq(lg, author), m);
    }
}

/// What a channel tries again when an author's key arrives is what is unread of that author's
/// feed from its beginning to its end.
pub proof fn law_unread_is_the_whole_feed(ch: ChannelState, author: Digest32, i: int)
    requires
        stands(ch.log@, i),
        ch.log@[i].author_id == author,
        ch.log@[i].seq > 0,
        ch.log@[i].payload is Some,
        segments::is_group_message(ch.log@[i].payload->Some_0@),
        forall|t: int|
            0 <= t < ch.timeline@.len() ==> (#[trigger] ch.timeline@[t]).entry_hash
                != ch.log@[i].entry_hash,
    ensures
        ch.unread(author).contains(news(ch.log@, i)),
{
    law_every_unread_message_is_tried_again(ch.log@, ch.timeline@, author, i, 0);
}

/// An entry is shown exactly if some row of the timeline is its.
pub proof fn law_shown_exactly(a: Seq<Rendered>, b: Seq<Rendered>, r: Rendered, h: Digest32)
    ensures
        !log::is_shown(Seq::empty(), h),
        log::is_shown(a + b, h) <==> log::is_shown(a, h) || log::is_shown(b, h),
        log::is_shown(seq![r], h) <==> r.entry_hash == h,
{
    if log::is_shown(a, h) {
        let i = choose|i: int| 0 <= i < a.len() && (#[trigger] a[i]).entry_hash == h;
        assert((a + b)[i].entry_hash == h);
    }
    if log::is_shown(b, h) {
        let i = choose|i: int| 0 <= i < b.len() && (#[trigger] b[i]).entry_hash == h;
        assert((a + b)[a.len() + i].entry_hash == h);
    }
    if log::is_shown(a + b, h) {
        let i = choose|i: int| 0 <= i < (a + b).len() && (#[trigger] (a + b)[i]).entry_hash == h;
        if i < a.len() {
            assert(a[i].entry_hash == h);
        } else {
            assert(b[i - a.len()].entry_hash == h);
        }
    }
    if r.entry_hash == h {
        assert(seq![r][0].entry_hash == h);
    }
}

/// The heads that a session begins with name each author once, in the order of the authors,
/// and go no further than the author's entries do.
pub proof fn law_heads_are_reached(ch: ChannelState, k: int)
    requires
        0 <= k < ch.authors.rows().len(),
    ensures
        log::heads_of(ch)[k].0 == ch.authors.rows()[k].0,
        log::heads_of(ch)[k].1 > 0 ==> exists|i: int|
            0 <= i < ch.log@.len() && (#[trigger] ch.log@[i]).author_id == ch.authors.rows()[k].0
                && ch.log@[i].seq == log::heads_of(ch)[k].1,
{
    law_feed_ends_at_its_highest_entry(ch.log@, ch.authors.rows()[k].0);
}

} // verus!
