//! Small helpers over sequences.

use vstd::prelude::*;

use crate::hash::{same_digest, Digest32};

verus! {

/// The elements of `s` of which `p` holds, in order.
pub open spec fn pick<T>(s: Seq<T>, p: spec_fn(T) -> bool) -> Seq<T>
    decreases s.len(),
{
    if s.len() == 0 {
        Seq::empty()
    } else if p(s.last()) {
        pick(s.drop_last(), p).push(s.last())
    } else {
        pick(s.drop_last(), p)
    }
}

/// Picking picks exactly the elements of which `p` holds.
pub proof fn lemma_pick_contains<T>(s: Seq<T>, p: spec_fn(T) -> bool, x: T)
    ensures
        pick(s, p).contains(x) <==> s.contains(x) && p(x),
    decreases s.len(),
{
    if s.len() > 0 {
        let front = s.drop_last();
        lemma_pick_contains(front, p, x);
        let picked = pick(front, p);
        if s.contains(x) {
            let i = choose|i: int| 0 <= i < s.len() && s[i] == x;
            if i < front.len() {
                assert(front[i] == x);
            }
        }
        if front.contains(x) {
            let i = choose|i: int| 0 <= i < front.len() && front[i] == x;
            assert(s[i] == x);
        }
        if p(s.last()) {
            if picked.contains(x) {
                let i = choose|i: int| 0 <= i < picked.len() && picked[i] == x;
                assert(picked.push(s.last())[i] == x);
            }
            assert(picked.push(s.last())[picked.len() as int] == s.last());
            assert(s[s.len() - 1] == s.last());
            if pick(s, p).contains(x) {
                let i = choose|i: int| 0 <= i < pick(s, p).len() && pick(s, p)[i] == x;
                if i < picked.len() {
                    assert(picked[i] == x);
                }
            }
        } else {
            if s.contains(x) && p(x) {
                assert(front.contains(x));
            }
        }
    }
}

/// Whether `d` is one of `v`.
pub fn has_digest(v: &Vec<Digest32>, d: &Digest32) -> (r: bool)
    ensures
        r == v@.contains(*d),
{
    let mut i: usize = 0;
    while i < v.len()
        invariant
            i <= v@.len(),
            forall|j: int| 0 <= j < i ==> v@[j] != *d,
        decreases v@.len() - i,
    {
        if same_digest(&v[i], d) {
            assert(v@[i as int] == *d);
            return true;
        }
        i = i + 1;
    }
    false
}

/// `n + 1`, or the largest number where that does not fit.
pub open spec fn succ(n: u64) -> u64 {
    if n == u64::MAX {
        n
    } else {
        (n + 1) as u64
    }
}

/// `n + 1`, or the largest number where that does not fit.
pub fn next_number(n: u64) -> (r: u64)
    ensures
        r == succ(n),
{
    if n == u64::MAX {
        n
    } else {
        n + 1
    }
}

/// What is picked keeps its order: each stands behind what is picked of those before it.
/// Where all are picked, all are left as they are.
pub proof fn law_pick_keeps_the_order<T>(s: Seq<T>, p: spec_fn(T) -> bool, i: int)
    requires
        0 <= i < s.len(),
        p(s[i]),
    ensures
        ({
            let n = pick(s.take(i), p).len() as int;
            &&& n < pick(s, p).len()
            &&& pick(s, p)[n] == s[i]
        }),
    decreases s.len(),
{
    let front = s.drop_last();
    if i < front.len() {
        assert(front[i] == s[i]);
        assert(front.take(i) =~= s.take(i));
        law_pick_keeps_the_order(front, p, i);
    } else {
        assert(s.take(i) =~= front);
    }
}

/// What is picked is no more than there was, and is all there was exactly if all is picked.
pub proof fn law_pick_takes_all_or_fewer<T>(s: Seq<T>, p: spec_fn(T) -> bool)
    ensures
        pick(s, p).len() <= s.len(),
        pick(s, p).len() == s.len() <==> forall|i: int| 0 <= i < s.len() ==> p(#[trigger] s[i]),
        pick(s, p).len() == s.len() ==> pick(s, p) == s,
    decreases s.len(),
{
    if s.len() > 0 {
        let front = s.drop_last();
        law_pick_takes_all_or_fewer(front, p);
        assert forall|i: int| 0 <= i < front.len() implies front[i] == #[trigger] s[i] by {}
        assert(s[s.len() - 1] == s.last());
        if forall|i: int| 0 <= i < s.len() ==> p(#[trigger] s[i]) {
            assert forall|i: int| 0 <= i < front.len() implies p(#[trigger] front[i]) by {
                assert(p(s[i]));
            }
        }
        if pick(s, p).len() == s.len() {
            assert forall|i: int| 0 <= i < s.len() implies p(#[trigger] s[i]) by {
                if i < front.len() {
                    assert(p(front[i]));
                }
            }
            assert(pick(s, p) =~= s);
        }
    } else {
        assert(pick(s, p) =~= s);
    }
}

/// The next number is one more, and the largest has none.
pub proof fn law_next_number(n: u64)
    ensures
        n < u64::MAX ==> succ(n) == n + 1,
        succ(u64::MAX) == u64::MAX,
{
}

} // verus!
