//! A map kept as rows in ascending key order, so that walking it, and writing it
//! down, gives one order only.

use vstd::prelude::*;

use crate::hash::{self, is_before, same_bytes, Digest32};

verus! {

/// What rows can be ordered by: a byte string, compared byte by byte.
pub trait Key: Sized {
    /// The bytes that order the key.
    spec fn key_bytes(&self) -> Seq<u8>;

    /// Whether this key stands before the other.
    fn before(&self, other: &Self) -> (r: bool)
        ensures
            r == hash::bytes_before(self.key_bytes(), other.key_bytes()),
    ;

    /// Whether both are the same key.
    fn same(&self, other: &Self) -> (r: bool)
        ensures
            r == (self.key_bytes() == other.key_bytes()),
    ;
}

impl Key for Digest32 {
    open spec fn key_bytes(&self) -> Seq<u8> {
        self@
    }

    fn before(&self, other: &Self) -> (r: bool) {
        is_before(self.as_slice(), other.as_slice())
    }

    fn same(&self, other: &Self) -> (r: bool) {
        same_bytes(self.as_slice(), other.as_slice())
    }
}

impl Key for String {
    open spec fn key_bytes(&self) -> Seq<u8> {
        vstd::utf8::encode_utf8(self@)
    }

    fn before(&self, other: &Self) -> (r: bool) {
        is_before(self.as_str().as_bytes(), other.as_str().as_bytes())
    }

    fn same(&self, other: &Self) -> (r: bool) {
        same_bytes(self.as_str().as_bytes(), other.as_str().as_bytes())
    }
}

/// A map from keys to values.
#[derive(Debug)]
pub struct Table<K, V> {
    rows: Vec<(K, V)>,
}

/// Whether the keys of `rows` ascend.
pub open spec fn ascending<K: Key, V>(rows: Seq<(K, V)>) -> bool {
    forall|i: int, j: int|
        0 <= i < j < rows.len() ==> hash::bytes_before(
            (#[trigger] rows[i]).0.key_bytes(),
            (#[trigger] rows[j]).0.key_bytes(),
        )
}

/// The map that `rows` spell out.
pub open spec fn map_of<K: Key, V>(rows: Seq<(K, V)>) -> Map<Seq<u8>, V>
    decreases rows.len(),
{
    if rows.len() == 0 {
        Map::empty()
    } else {
        map_of(rows.drop_last()).insert(rows.last().0.key_bytes(), rows.last().1)
    }
}

/// Every row is in the map under its key, and nothing else is.
pub proof fn lemma_map_of<K: Key, V>(rows: Seq<(K, V)>)
    requires
        ascending(rows),
    ensures
        forall|i: int|
            0 <= i < rows.len() ==> {
                &&& map_of(rows).contains_key((#[trigger] rows[i]).0.key_bytes())
                &&& map_of(rows)[rows[i].0.key_bytes()] == rows[i].1
            },
        forall|k: Seq<u8>| #[trigger]
            map_of(rows).contains_key(k) ==> exists|i: int|
                0 <= i < rows.len() && (#[trigger] rows[i]).0.key_bytes() == k,
    decreases rows.len(),
{
    if rows.len() > 0 {
        let front = rows.drop_last();
        let last = rows.len() - 1;
        assert(ascending(front)) by {
            assert forall|i: int, j: int| 0 <= i < j < front.len() implies hash::bytes_before(
                (#[trigger] front[i]).0.key_bytes(),
                (#[trigger] front[j]).0.key_bytes(),
            ) by {
                assert(front[i] == rows[i] && front[j] == rows[j]);
            }
        }
        lemma_map_of(front);
        assert forall|i: int| 0 <= i < rows.len() implies {
            &&& map_of(rows).contains_key((#[trigger] rows[i]).0.key_bytes())
            &&& map_of(rows)[rows[i].0.key_bytes()] == rows[i].1
        } by {
            if i < last {
                assert(front[i] == rows[i]);
                hash::lemma_bytes_order(
                    rows[i].0.key_bytes(),
                    rows[last].0.key_bytes(),
                    rows[i].0.key_bytes(),
                );
                assert(hash::bytes_before(rows[i].0.key_bytes(), rows[last].0.key_bytes()));
            }
        }
        assert forall|k: Seq<u8>| #[trigger] map_of(rows).contains_key(k) implies exists|i: int|
            0 <= i < rows.len() && (#[trigger] rows[i]).0.key_bytes() == k by {
            if k == rows[last].0.key_bytes() {
            } else {
                assert(map_of(front).contains_key(k));
                let i = choose|i: int|
                    0 <= i < front.len() && (#[trigger] front[i]).0.key_bytes() == k;
                assert(rows[i].0.key_bytes() == k);
            }
        }
    }
}

/// There are as many rows as keys.
pub proof fn lemma_rows_counted<K: Key, V>(rows: Seq<(K, V)>)
    requires
        ascending(rows),
    ensures
        map_of(rows).dom().finite(),
        map_of(rows).dom().len() == rows.len(),
    decreases rows.len(),
{
    if rows.len() > 0 {
        let front = rows.drop_last();
        lemma_front_ascending(rows);
        lemma_rows_counted(front);
        lemma_front_map(rows);
        assert(!map_of(front).dom().contains(rows.last().0.key_bytes()));
        assert(map_of(rows).dom() =~= map_of(front).dom().insert(rows.last().0.key_bytes()));
    }
}

/// Two lists of rows in key order that spell out one map list the same keys with the
/// same values: what is written of a map is one sequence only.
pub proof fn law_rows_are_canonical<K: Key, V>(a: Seq<(K, V)>, b: Seq<(K, V)>)
    requires
        ascending(a),
        ascending(b),
        map_of(a) == map_of(b),
    ensures
        a.len() == b.len(),
        forall|i: int|
            0 <= i < a.len() ==> (#[trigger] a[i]).0.key_bytes() == b[i].0.key_bytes() && a[i].1
                == b[i].1,
    decreases a.len(),
{
    lemma_map_of(a);
    lemma_map_of(b);
    if a.len() == 0 {
        if b.len() > 0 {
            assert(map_of(b).contains_key(b[0].0.key_bytes()));
        }
    } else if b.len() == 0 {
        assert(map_of(a).contains_key(a[0].0.key_bytes()));
    } else {
        let m = a.len() - 1;
        let n = b.len() - 1;
        let ka = a[m].0.key_bytes();
        let kb = b[n].0.key_bytes();
        assert(map_of(b).contains_key(ka));
        assert(map_of(a).contains_key(kb));
        let i = choose|i: int| 0 <= i < b.len() && (#[trigger] b[i]).0.key_bytes() == ka;
        let j = choose|j: int| 0 <= j < a.len() && (#[trigger] a[j]).0.key_bytes() == kb;
        hash::lemma_bytes_order(ka, kb, ka);
        assert(ka == kb) by {
            if i < n {
                assert(hash::bytes_before(b[i].0.key_bytes(), b[n].0.key_bytes()));
            }
            if j < m {
                assert(hash::bytes_before(a[j].0.key_bytes(), a[m].0.key_bytes()));
            }
        }
        let fa = a.drop_last();
        let fb = b.drop_last();
        lemma_front_ascending(a);
        lemma_front_ascending(b);
        lemma_map_of(fa);
        lemma_map_of(fb);
        assert(map_of(fa) =~= map_of(fb)) by {
            lemma_front_map(a);
            lemma_front_map(b);
        }
        law_rows_are_canonical(fa, fb);
        assert forall|i: int| 0 <= i < a.len() implies (#[trigger] a[i]).0.key_bytes()
            == b[i].0.key_bytes() && a[i].1 == b[i].1 by {
            if i < m {
                assert(fa[i] == a[i] && fb[i] == b[i]);
            } else {
                assert(map_of(a)[ka] == a[m].1 && map_of(b)[kb] == b[n].1);
            }
        }
    }
}

proof fn lemma_front_ascending<K: Key, V>(rows: Seq<(K, V)>)
    requires
        ascending(rows),
        rows.len() > 0,
    ensures
        ascending(rows.drop_last()),
{
    let front = rows.drop_last();
    assert forall|i: int, j: int| 0 <= i < j < front.len() implies hash::bytes_before(
        (#[trigger] front[i]).0.key_bytes(),
        (#[trigger] front[j]).0.key_bytes(),
    ) by {
        assert(front[i] == rows[i] && front[j] == rows[j]);
    }
}

proof fn lemma_front_map<K: Key, V>(rows: Seq<(K, V)>)
    requires
        ascending(rows),
        rows.len() > 0,
    ensures
        map_of(rows.drop_last()) == map_of(rows).remove(rows.last().0.key_bytes()),
{
    let front = rows.drop_last();
    let last = rows.len() - 1;
    lemma_front_ascending(rows);
    lemma_map_of(front);
    assert(!map_of(front).contains_key(rows.last().0.key_bytes())) by {
        if map_of(front).contains_key(rows.last().0.key_bytes()) {
            let i = choose|i: int|
                0 <= i < front.len() && (#[trigger] front[i]).0.key_bytes()
                    == rows.last().0.key_bytes();
            assert(front[i] == rows[i]);
            assert(hash::bytes_before(rows[i].0.key_bytes(), rows[last].0.key_bytes()));
            hash::lemma_bytes_order(
                rows[i].0.key_bytes(),
                rows[last].0.key_bytes(),
                rows[i].0.key_bytes(),
            );
        }
    }
    assert(map_of(front) =~= map_of(rows).remove(rows.last().0.key_bytes()));
}

impl<K: Key, V> Table<K, V> {
    /// The rows, in key order.
    pub closed spec fn rows(&self) -> Seq<(K, V)> {
        self.rows@
    }

    /// What every table keeps: its rows are in key order.
    pub open spec fn wf(&self) -> bool {
        ascending(self.rows())
    }

    /// Whether there is a row for `k`.
    pub open spec fn has(&self, k: Seq<u8>) -> bool {
        map_of(self.rows()).contains_key(k)
    }

    /// The map.
    pub open spec fn map(&self) -> Map<Seq<u8>, V> {
        map_of(self.rows())
    }

    /// A table with nothing in it.
    pub fn new() -> (t: Table<K, V>)
        ensures
            t.wf(),
            t.rows() == Seq::<(K, V)>::empty(),
            t.map() == Map::<Seq<u8>, V>::empty(),
    {
        Table { rows: Vec::new() }
    }

    /// How many rows there are.
    pub fn len(&self) -> (n: usize)
        ensures
            n == self.rows().len(),
    {
        self.rows.len()
    }

    /// The row at `i`.
    pub fn row(&self, i: usize) -> (r: &(K, V))
        requires
            i < self.rows().len(),
        ensures
            *r == self.rows()[i as int],
    {
        &self.rows[i]
    }

    /// Where the row for `k` is.
    pub fn find(&self, k: &K) -> (r: Option<usize>)
        requires
            self.wf(),
        ensures
            match r {
                Some(i) => {
                    &&& i < self.rows().len()
                    &&& self.rows()[i as int].0.key_bytes() == k.key_bytes()
                    &&& self.has(k.key_bytes())
                    &&& self.map()[k.key_bytes()] == self.rows()[i as int].1
                },
                None => !self.has(k.key_bytes()),
            },
    {
        proof {
            lemma_map_of(self.rows@);
        }
        let mut i: usize = 0;
        while i < self.rows.len()
            invariant
                i <= self.rows@.len(),
                self.wf(),
                forall|j: int|
                    0 <= j < i ==> (#[trigger] self.rows@[j]).0.key_bytes() != k.key_bytes(),
            decreases self.rows@.len() - i,
        {
            if self.rows[i].0.same(k) {
                proof {
                    lemma_map_of(self.rows@);
                }
                return Some(i);
            }
            i = i + 1;
        }
        None
    }

    /// The value for `k`.
    pub fn get(&self, k: &K) -> (r: Option<&V>)
        requires
            self.wf(),
        ensures
            match r {
                Some(v) => self.has(k.key_bytes()) && *v == self.map()[k.key_bytes()],
                None => !self.has(k.key_bytes()),
            },
    {
        match self.find(k) {
            Some(i) => Some(&self.rows[i].1),
            None => None,
        }
    }

    /// Whether there is a row for `k`.
    pub fn contains_key(&self, k: &K) -> (r: bool)
        requires
            self.wf(),
        ensures
            r == self.has(k.key_bytes()),
    {
        match self.find(k) {
            Some(_) => true,
            None => false,
        }
    }

    /// Puts `v` in the row for `k`, in place of what was there. The result says whether
    /// the row is new.
    pub fn insert(&mut self, k: K, v: V) -> (fresh: bool)
        requires
            old(self).wf(),
        ensures
            final(self).wf(),
            fresh == !old(self).has(k.key_bytes()),
            final(self).map() == old(self).map().insert(k.key_bytes(), v),
            final(self).rows().len() == old(self).rows().len() + (if fresh {
                1int
            } else {
                0
            }),
    {
        let ghost before = self.rows@;
        let mut i: usize = 0;
        proof {
            lemma_map_of(before);
        }
        while i < self.rows.len() && self.rows[i].0.before(&k)
            invariant
                i <= self.rows@.len(),
                self.rows@ == before,
                forall|j: int|
                    0 <= j < i ==> hash::bytes_before(
                        (#[trigger] self.rows@[j]).0.key_bytes(),
                        k.key_bytes(),
                    ),
            decreases self.rows@.len() - i,
        {
            i = i + 1;
        }
        if i < self.rows.len() && self.rows[i].0.same(&k) {
            let ghost kb = k.key_bytes();
            self.rows.remove(i);
            self.rows.insert(i, (k, v));
            proof {
                let after = self.rows@;
                assert(after =~= before.update(i as int, (k, v)));
                assert(ascending(after)) by {
                    assert forall|p: int, q: int| 0 <= p < q < after.len() implies
                        hash::bytes_before(
                            (#[trigger] after[p]).0.key_bytes(),
                            (#[trigger] after[q]).0.key_bytes(),
                        ) by {
                        assert(hash::bytes_before(
                            before[p].0.key_bytes(),
                            before[q].0.key_bytes(),
                        ));
                    }
                }
                lemma_map_of(after);
                lemma_same_map(before, after, i as int, kb, v);
            }
            false
        } else {
            let ghost kb = k.key_bytes();
            let ghost row = (k, v);
            proof {
                if i < before.len() {
                    hash::lemma_bytes_order(before[i as int].0.key_bytes(), kb, kb);
                }
                assert(!map_of(before).contains_key(kb)) by {
                    if map_of(before).contains_key(kb) {
                        let j = choose|j: int|
                            0 <= j < before.len() && (#[trigger] before[j]).0.key_bytes() == kb;
                        hash::lemma_bytes_order(kb, kb, kb);
                        if j > i {
                            assert(hash::bytes_before(
                                before[i as int].0.key_bytes(),
                                before[j].0.key_bytes(),
                            ));
                            hash::lemma_bytes_order(kb, before[i as int].0.key_bytes(), kb);
                        }
                    }
                }
            }
            self.rows.insert(i, (k, v));
            proof {
                let after = self.rows@;
                assert(after == before.insert(i as int, row));
                assert forall|p: int, q: int| 0 <= p < q < after.len() implies hash::bytes_before(
                    (#[trigger] after[p]).0.key_bytes(),
                    (#[trigger] after[q]).0.key_bytes(),
                ) by {
                    let at = |x: int| if x < i { x } else { x - 1 };
                    if p != i && q != i {
                        assert(after[p] == before[at(p)] && after[q] == before[at(q)]);
                        assert(hash::bytes_before(
                            before[at(p)].0.key_bytes(),
                            before[at(q)].0.key_bytes(),
                        ));
                    } else if q == i {
                        assert(after[p] == before[p]);
                    } else {
                        assert(after[q] == before[q - 1]);
                        if q - 1 > i {
                            assert(hash::bytes_before(
                                before[i as int].0.key_bytes(),
                                before[q - 1].0.key_bytes(),
                            ));
                            hash::lemma_bytes_order(
                                kb,
                                before[i as int].0.key_bytes(),
                                before[q - 1].0.key_bytes(),
                            );
                        }
                    }
                }
                lemma_map_of(after);
                lemma_map_inserted(before, after, i as int, row);
            }
            true
        }
    }

    /// Takes the row for `k` out. The result says whether there was one.
    pub fn remove(&mut self, k: &K) -> (gone: bool)
        requires
            old(self).wf(),
        ensures
            final(self).wf(),
            gone == old(self).has(k.key_bytes()),
            final(self).map() == old(self).map().remove(k.key_bytes()),
            !gone ==> final(self).rows() == old(self).rows(),
            final(self).rows().len() == old(self).rows().len() - (if gone {
                1int
            } else {
                0
            }),
    {
        let ghost before = self.rows@;
        match self.find(k) {
            Some(i) => {
                self.rows.remove(i);
                proof {
                    let after = self.rows@;
                    assert forall|p: int, q: int| 0 <= p < q < after.len() implies
                        hash::bytes_before(
                            (#[trigger] after[p]).0.key_bytes(),
                            (#[trigger] after[q]).0.key_bytes(),
                        ) by {
                        let at = |x: int| if x < i { x } else { x + 1 };
                        assert(after[p] == before[at(p)] && after[q] == before[at(q)]);
                        assert(hash::bytes_before(
                            before[at(p)].0.key_bytes(),
                            before[at(q)].0.key_bytes(),
                        ));
                    }
                    lemma_map_of(before);
                    lemma_map_of(after);
                    lemma_map_removed(before, after, i as int);
                }
                true
            },
            None => {
                assert(map_of(self.rows@) =~= map_of(before).remove(k.key_bytes()));
                false
            },
        }
    }
}

proof fn lemma_same_map<K: Key, V>(
    before: Seq<(K, V)>,
    after: Seq<(K, V)>,
    i: int,
    kb: Seq<u8>,
    v: V,
)
    requires
        ascending(before),
        ascending(after),
        0 <= i < before.len() == after.len(),
        before[i].0.key_bytes() == kb,
        after[i].0.key_bytes() == kb,
        after[i].1 == v,
        forall|j: int| 0 <= j < before.len() && j != i ==> #[trigger] after[j] == before[j],
    ensures
        map_of(after) == map_of(before).insert(kb, v),
        map_of(before).contains_key(kb),
{
    lemma_map_of(before);
    lemma_map_of(after);
    let want = map_of(before).insert(kb, v);
    assert forall|k: Seq<u8>| #[trigger] map_of(after).contains_key(k) <==> want.contains_key(
        k,
    ) by {
        if map_of(after).contains_key(k) {
            let j = choose|j: int| 0 <= j < after.len() && (#[trigger] after[j]).0.key_bytes() == k;
            assert(map_of(before).contains_key(before[j].0.key_bytes()));
        }
        if want.contains_key(k) && k != kb {
            let j = choose|j: int|
                0 <= j < before.len() && (#[trigger] before[j]).0.key_bytes() == k;
            assert(after[j] == before[j]);
        }
    }
    assert forall|k: Seq<u8>| map_of(after).contains_key(k) implies #[trigger] map_of(after)[k]
        == want[k] by {
        let j = choose|j: int| 0 <= j < after.len() && (#[trigger] after[j]).0.key_bytes() == k;
        if j != i {
            assert(after[j] == before[j]);
            if i < j {
                assert(hash::bytes_before(after[i].0.key_bytes(), after[j].0.key_bytes()));
            } else {
                assert(hash::bytes_before(after[j].0.key_bytes(), after[i].0.key_bytes()));
            }
            hash::lemma_bytes_order(kb, kb, kb);
            assert(map_of(before)[before[j].0.key_bytes()] == before[j].1);
        }
    }
    assert(map_of(after) =~= want);
}

proof fn lemma_map_inserted<K: Key, V>(
    before: Seq<(K, V)>,
    after: Seq<(K, V)>,
    i: int,
    row: (K, V),
)
    requires
        ascending(before),
        ascending(after),
        0 <= i <= before.len(),
        after == before.insert(i, row),
        !map_of(before).contains_key(row.0.key_bytes()),
    ensures
        map_of(after) == map_of(before).insert(row.0.key_bytes(), row.1),
{
    lemma_map_of(before);
    lemma_map_of(after);
    let kb = row.0.key_bytes();
    let want = map_of(before).insert(kb, row.1);
    assert(after[i] == row);
    assert forall|k: Seq<u8>| #[trigger] map_of(after).contains_key(k) <==> want.contains_key(
        k,
    ) by {
        if map_of(after).contains_key(k) {
            let j = choose|j: int| 0 <= j < after.len() && (#[trigger] after[j]).0.key_bytes() == k;
            if j < i {
                assert(after[j] == before[j]);
            } else if j > i {
                assert(after[j] == before[j - 1]);
            }
        }
        if map_of(before).contains_key(k) {
            let j = choose|j: int|
                0 <= j < before.len() && (#[trigger] before[j]).0.key_bytes() == k;
            if j < i {
                assert(after[j] == before[j]);
            } else {
                assert(after[j + 1] == before[j]);
            }
        }
    }
    assert forall|k: Seq<u8>| map_of(after).contains_key(k) implies #[trigger] map_of(after)[k]
        == want[k] by {
        let j = choose|j: int| 0 <= j < after.len() && (#[trigger] after[j]).0.key_bytes() == k;
        if j < i {
            assert(after[j] == before[j]);
        } else if j > i {
            assert(after[j] == before[j - 1]);
        }
    }
    assert(map_of(after) =~= want);
}

proof fn lemma_map_removed<K: Key, V>(before: Seq<(K, V)>, after: Seq<(K, V)>, i: int)
    requires
        ascending(before),
        ascending(after),
        0 <= i < before.len(),
        after == before.remove(i),
    ensures
        map_of(after) == map_of(before).remove(before[i].0.key_bytes()),
{
    lemma_map_of(before);
    lemma_map_of(after);
    let kb = before[i].0.key_bytes();
    let want = map_of(before).remove(kb);
    hash::lemma_bytes_order(kb, kb, kb);
    assert forall|k: Seq<u8>| #[trigger] map_of(after).contains_key(k) <==> want.contains_key(
        k,
    ) by {
        if map_of(after).contains_key(k) {
            let j = choose|j: int| 0 <= j < after.len() && (#[trigger] after[j]).0.key_bytes() == k;
            let p = if j < i { j } else { j + 1 };
            assert(after[j] == before[p]);
            if p < i {
                assert(hash::bytes_before(before[p].0.key_bytes(), before[i].0.key_bytes()));
            } else {
                assert(hash::bytes_before(before[i].0.key_bytes(), before[p].0.key_bytes()));
            }
        }
        if want.contains_key(k) {
            let j = choose|j: int|
                0 <= j < before.len() && (#[trigger] before[j]).0.key_bytes() == k;
            let p = if j < i { j } else { j - 1 };
            assert(after[p] == before[j]);
        }
    }
    assert forall|k: Seq<u8>| map_of(after).contains_key(k) implies #[trigger] map_of(after)[k]
        == want[k] by {
        let j = choose|j: int| 0 <= j < after.len() && (#[trigger] after[j]).0.key_bytes() == k;
        let p = if j < i { j } else { j + 1 };
        assert(after[j] == before[p]);
    }
    assert(map_of(after) =~= want);
}

} // verus!
