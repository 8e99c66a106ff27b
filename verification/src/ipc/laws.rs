//! What holds of the node's answers as a whole: a client that reads on from the last line
//! it saw misses nothing and sees nothing twice, and nobody but the operator edits or
//! reads the keyring.

use vstd::prelude::*;

use crate::api::{MessageRow, NodeView};
use crate::hash::Digest32;
use crate::ipc::request::Request;
use crate::ipc::serve::{self, OperatorAct, Pending, Progress, Step};

verus! {

/// Whether rows stand in the order in which they arrived.
pub open spec fn in_arrival_order(rows: Seq<MessageRow>) -> bool {
    forall|i: int, j: int|
        0 <= i <= j < rows.len() ==> (#[trigger] rows[i]).arrival <= (#[trigger] rows[j]).arrival
}

/// Whether no two rows arrived at once.
pub open spec fn arrivals_differ(rows: Seq<MessageRow>) -> bool {
    forall|i: int, j: int|
        0 <= i < j < rows.len() ==> (#[trigger] rows[i]).arrival != (#[trigger] rows[j]).arrival
}

/// Whether no two rows are of one entry.
pub open spec fn entries_differ(rows: Seq<MessageRow>) -> bool {
    forall|i: int, j: int|
        0 <= i < j < rows.len() ==> (#[trigger] rows[i]).entry_hash
            != (#[trigger] rows[j]).entry_hash
}

proof fn lemma_insert(rows: Seq<MessageRow>, x: MessageRow)
    requires
        in_arrival_order(rows),
    ensures
        in_arrival_order(serve::arrival_insert(rows, x)),
        serve::arrival_insert(rows, x).len() == rows.len() + 1,
        forall|r: MessageRow| #[trigger]
            serve::arrival_insert(rows, x).contains(r) <==> (rows.contains(r) || r == x),
    decreases rows.len(),
{
    let out = serve::arrival_insert(rows, x);
    if rows.len() > 0 && rows.last().arrival > x.arrival {
        let front = rows.drop_last();
        assert(in_arrival_order(front)) by {
            assert forall|i: int, j: int| 0 <= i <= j < front.len() implies (
            #[trigger] front[i]).arrival <= (#[trigger] front[j]).arrival by {
                assert(front[i] == rows[i] && front[j] == rows[j]);
            }
        }
        lemma_insert(front, x);
        let inner = serve::arrival_insert(front, x);
        assert(out =~= inner.push(rows.last()));
        assert forall|r: MessageRow| #[trigger] out.contains(r) <==> (rows.contains(r) || r
            == x) by {
            if out.contains(r) {
                let k = out.index_of(r);
                if k < inner.len() {
                    assert(inner[k] == r);
                    assert(inner.contains(r));
                    if front.contains(r) {
                        let m = front.index_of(r);
                        assert(rows[m] == r);
                    }
                } else {
                    assert(rows[rows.len() - 1] == r);
                }
            }
            if rows.contains(r) || r == x {
                if rows.contains(r) && rows.index_of(r) == rows.len() - 1 {
                    assert(out[out.len() - 1] == r);
                } else {
                    if rows.contains(r) {
                        let m = rows.index_of(r);
                        assert(front[m] == r);
                    }
                    assert(inner.contains(r));
                    let k = inner.index_of(r);
                    assert(out[k] == r);
                }
            }
        }
        assert forall|i: int, j: int| 0 <= i <= j < out.len() implies (#[trigger] out[i]).arrival
            <= (#[trigger] out[j]).arrival by {
            if j < inner.len() {
                assert(out[i] == inner[i] && out[j] == inner[j]);
            } else if i < inner.len() {
                assert(inner.contains(inner[i]));
                if inner[i] != x {
                    let m = front.index_of(inner[i]);
                    assert(rows[m] == inner[i]);
                    assert(rows[m].arrival <= rows[rows.len() - 1].arrival);
                }
            }
        }
    } else {
        assert(out =~= rows.push(x));
        assert forall|r: MessageRow| #[trigger] out.contains(r) <==> (rows.contains(r) || r
            == x) by {
            if rows.contains(r) {
                assert(out[rows.index_of(r)] == r);
            }
            assert(out[rows.len() as int] == x);
        }
        assert forall|i: int, j: int| 0 <= i <= j < out.len() implies (#[trigger] out[i]).arrival
            <= (#[trigger] out[j]).arrival by {
            if j == rows.len() && i < j {
                assert(rows[i].arrival <= rows[rows.len() - 1].arrival);
            }
        }
    }
}

/// A read from a cursor is a feed: it holds exactly what arrived behind the cursor, in the
/// order in which it arrived.
pub proof fn law_feed_is_complete(rows: Seq<MessageRow>, mark: u64)
    ensures
        in_arrival_order(serve::feed(rows, mark)),
        forall|r: MessageRow| #[trigger]
            serve::feed(rows, mark).contains(r) <==> (rows.contains(r) && r.arrival > mark),
    decreases rows.len(),
{
    if rows.len() > 0 {
        let front = rows.drop_last();
        law_feed_is_complete(front, mark);
        let old_feed = serve::feed(front, mark);
        lemma_insert(old_feed, rows.last());
        assert forall|r: MessageRow| #[trigger]
            serve::feed(rows, mark).contains(r) <==> (rows.contains(r) && r.arrival > mark) by {
            if rows.contains(r) {
                let k = rows.index_of(r);
                if k < front.len() {
                    assert(front[k] == r);
                }
            }
            if front.contains(r) {
                assert(rows[front.index_of(r)] == r);
            }
            assert(rows[rows.len() - 1] == rows.last());
        }
    }
}

proof fn lemma_insert_keeps_apart(rows: Seq<MessageRow>, x: MessageRow)
    requires
        arrivals_differ(rows),
        in_arrival_order(rows),
        forall|i: int| 0 <= i < rows.len() ==> (#[trigger] rows[i]).arrival != x.arrival,
    ensures
        arrivals_differ(serve::arrival_insert(rows, x)),
    decreases rows.len(),
{
    let out = serve::arrival_insert(rows, x);
    if rows.len() > 0 && rows.last().arrival > x.arrival {
        let front = rows.drop_last();
        assert forall|i: int, j: int| 0 <= i < j < front.len() implies (#[trigger] front[i]).arrival
            != (#[trigger] front[j]).arrival by {
            assert(front[i] == rows[i] && front[j] == rows[j]);
        }
        assert forall|i: int, j: int| 0 <= i <= j < front.len() implies (
        #[trigger] front[i]).arrival <= (#[trigger] front[j]).arrival by {
            assert(front[i] == rows[i] && front[j] == rows[j]);
        }
        assert forall|i: int| 0 <= i < front.len() implies (#[trigger] front[i]).arrival
            != x.arrival by {
            assert(front[i] == rows[i]);
        }
        lemma_insert_keeps_apart(front, x);
        lemma_insert(front, x);
        let inner = serve::arrival_insert(front, x);
        assert(out =~= inner.push(rows.last()));
        assert forall|i: int, j: int| 0 <= i < j < out.len() implies (#[trigger] out[i]).arrival
            != (#[trigger] out[j]).arrival by {
            assert(out[i] == inner[i]);
            if j < inner.len() {
                assert(out[j] == inner[j]);
            } else {
                assert(inner.contains(inner[i]));
                if inner[i] != x {
                    let m = front.index_of(inner[i]);
                    assert(rows[m] == inner[i]);
                    assert(rows[m].arrival != rows[rows.len() - 1].arrival);
                }
            }
        }
    } else {
        assert(out =~= rows.push(x));
    }
}

proof fn lemma_feed_keeps_apart(rows: Seq<MessageRow>, mark: u64)
    requires
        arrivals_differ(rows),
    ensures
        arrivals_differ(serve::feed(rows, mark)),
    decreases rows.len(),
{
    if rows.len() > 0 {
        let front = rows.drop_last();
        assert forall|i: int, j: int| 0 <= i < j < front.len() implies (#[trigger] front[i]).arrival
            != (#[trigger] front[j]).arrival by {
            assert(front[i] == rows[i] && front[j] == rows[j]);
        }
        lemma_feed_keeps_apart(front, mark);
        law_feed_is_complete(front, mark);
        let f = serve::feed(front, mark);
        assert forall|i: int| 0 <= i < f.len() implies (#[trigger] f[i]).arrival
            != rows.last().arrival by {
            assert(f.contains(f[i]));
            let k = front.index_of(f[i]);
            assert(rows[k] == f[i]);
            assert(rows[k].arrival != rows[rows.len() - 1].arrival);
        }
        lemma_insert_keeps_apart(f, rows.last());
    }
}

/// Two lists in strict order of arrival with the same rows are one list.
proof fn lemma_order_is_unique(a: Seq<MessageRow>, b: Seq<MessageRow>)
    requires
        in_arrival_order(a),
        in_arrival_order(b),
        arrivals_differ(a),
        arrivals_differ(b),
        forall|r: MessageRow| #[trigger] a.contains(r) <==> b.contains(r),
    ensures
        a == b,
    decreases a.len(),
{
    if a.len() == 0 {
        if b.len() > 0 {
            assert(b.contains(b[0]));
            assert(a.contains(b[0]));
        }
        assert(a =~= b);
    } else {
        assert(a.contains(a[a.len() - 1]));
        assert(b.contains(a.last()));
        let k = b.index_of(a.last());
        assert(b.contains(b[b.len() - 1]));
        assert(a.contains(b.last()));
        let m = a.index_of(b.last());
        assert(b[k].arrival <= b[b.len() - 1].arrival);
        assert(a[m].arrival <= a[a.len() - 1].arrival);
        assert(a.last().arrival == b.last().arrival);
        if k < b.len() - 1 {
            assert(b[k].arrival != b[b.len() - 1].arrival);
        }
        assert(a.last() == b.last());
        let fa = a.drop_last();
        let fb = b.drop_last();
        assert forall|i: int, j: int| 0 <= i <= j < fa.len() implies (#[trigger] fa[i]).arrival <= (
        #[trigger] fa[j]).arrival by {
            assert(fa[i] == a[i] && fa[j] == a[j]);
        }
        assert forall|i: int, j: int| 0 <= i <= j < fb.len() implies (#[trigger] fb[i]).arrival <= (
        #[trigger] fb[j]).arrival by {
            assert(fb[i] == b[i] && fb[j] == b[j]);
        }
        assert forall|i: int, j: int| 0 <= i < j < fa.len() implies (#[trigger] fa[i]).arrival != (
        #[trigger] fa[j]).arrival by {
            assert(fa[i] == a[i] && fa[j] == a[j]);
        }
        assert forall|i: int, j: int| 0 <= i < j < fb.len() implies (#[trigger] fb[i]).arrival != (
        #[trigger] fb[j]).arrival by {
            assert(fb[i] == b[i] && fb[j] == b[j]);
        }
        assert forall|r: MessageRow| #[trigger] fa.contains(r) <==> fb.contains(r) by {
            if fa.contains(r) {
                let i = fa.index_of(r);
                assert(a[i] == r);
                assert(a.contains(r));
                assert(b.contains(r));
                let j = b.index_of(r);
                assert(a[i].arrival != a[a.len() - 1].arrival);
                assert(j < fb.len());
                assert(fb[j] == r);
            }
            if fb.contains(r) {
                let i = fb.index_of(r);
                assert(b[i] == r);
                assert(b.contains(r));
                assert(a.contains(r));
                let j = a.index_of(r);
                assert(b[i].arrival != b[b.len() - 1].arrival);
                assert(j < fa.len());
                assert(fa[j] == r);
            }
        }
        lemma_order_is_unique(fa, fb);
        assert(a =~= fa.push(a.last()));
        assert(b =~= fb.push(b.last()));
    }
}

/// The last line of a read is always the right next cursor: what the read gave, followed
/// by a read from its last line, is what a read without a limit would have given. Nothing
/// is missed, and nothing comes twice.
pub proof fn law_last_line_is_the_next_cursor(
    rows: Seq<MessageRow>,
    mark: u64,
    limit: u64,
    i: int,
)
    requires
        arrivals_differ(rows),
        entries_differ(rows),
        serve::limited(serve::feed(rows, mark), limit).len() > 0,
        serve::is_cursor(
            rows,
            serve::limited(serve::feed(rows, mark), limit).last().entry_hash,
            i,
        ),
    ensures
        serve::limited(serve::feed(rows, mark), limit) + serve::feed(rows, rows[i].arrival)
            == serve::feed(rows, mark),
{
    let all = serve::feed(rows, mark);
    let got = serve::limited(all, limit);
    law_feed_is_complete(rows, mark);
    lemma_feed_keeps_apart(rows, mark);
    let last = got.last();
    let n = got.len();
    assert(all[n - 1] == last);
    assert(all.contains(last));
    let k = rows.index_of(last);
    if k < i {
        assert(rows[k].entry_hash != rows[i].entry_hash);
    } else if i < k {
        assert(rows[i].entry_hash != rows[k].entry_hash);
    }
    assert(rows[i] == last);
    let next = serve::feed(rows, last.arrival);
    law_feed_is_complete(rows, last.arrival);
    lemma_feed_keeps_apart(rows, last.arrival);
    let rest = all.skip(n as int);
    assert forall|a: int, b: int| 0 <= a <= b < rest.len() implies (#[trigger] rest[a]).arrival <= (
    #[trigger] rest[b]).arrival by {
        assert(rest[a] == all[a + n] && rest[b] == all[b + n]);
    }
    assert forall|a: int, b: int| 0 <= a < b < rest.len() implies (#[trigger] rest[a]).arrival != (
    #[trigger] rest[b]).arrival by {
        assert(rest[a] == all[a + n] && rest[b] == all[b + n]);
    }
    assert forall|r: MessageRow| #[trigger] rest.contains(r) <==> next.contains(r) by {
        if rest.contains(r) {
            let a = rest.index_of(r);
            assert(all[a + n] == r);
            assert(all.contains(r));
            assert(all[n - 1].arrival <= all[a + n].arrival);
            assert(all[n - 1].arrival != all[a + n].arrival);
        }
        if next.contains(r) {
            assert(all.contains(r));
            let a = all.index_of(r);
            if a < n {
                assert(all[a].arrival <= all[n - 1].arrival);
            }
            assert(rest[a - n] == r);
        }
    }
    lemma_order_is_unique(rest, next);
    assert(got =~= all.take(n as int));
    assert(got + rest =~= all);
}

/// A room's first lines and the lines behind a cursor come in different orders on purpose;
/// but with a cursor that this node does not hold, nothing is given at all.
pub proof fn law_unknown_cursor_is_refused(
    s: Step,
    rows: Seq<MessageRow>,
    cursor: Digest32,
    limit: u64,
)
    requires
        serve::answers_read(s, rows, Some(cursor), limit),
        forall|i: int| 0 <= i < rows.len() ==> (#[trigger] rows[i]).entry_hash != cursor,
    ensures
        serve::refuses(s, "cursor not in this room's timeline"@),
{
    assert forall|i: int| !(#[trigger] serve::is_cursor(rows, cursor, i)) by {}
}

/// Nobody edits or reads the keyring, or sets a retention, without proving to hold the
/// identity passphrase: the first thing that such a request does is to have the passphrase
/// checked, and if the check does not succeed the only answer is a refusal.
pub proof fn law_only_the_operator_edits_trust(
    first: Step,
    second: Step,
    view: NodeView,
    request: Request,
    act: OperatorAct,
    progress: Progress,
)
    requires
        request is Trust || request is SetRetention || request is Untrust || request is TrustList,
        serve::begins(first, view, request),
        serve::fits(Pending::Operator(act), progress),
        !(progress is Applied),
        serve::goes_on(second, view, Pending::Operator(act), progress),
    ensures
        first matches Step::Apply { command, .. } && command is VerifyPassphrase,
        first matches Step::Apply { then_do, .. } && then_do is Operator,
        serve::refuses(second, serve::not_operator()),
{
}

} // verus!
