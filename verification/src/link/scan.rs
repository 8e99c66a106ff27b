//! Taking text apart.

use vstd::prelude::*;
use vstd::string::*;

verus! {

/// Whether a character is white space.
pub open spec fn is_white(c: char) -> bool {
    let n = c as u32;
    ||| 0x9 <= n <= 0xd
    ||| n == 0x20 || n == 0x85 || n == 0xa0 || n == 0x1680
    ||| 0x2000 <= n <= 0x200a
    ||| n == 0x2028 || n == 0x2029 || n == 0x202f || n == 0x205f || n == 0x3000
}

fn white(c: char) -> (r: bool)
    ensures
        r == is_white(c),
{
    let n: u32 = c as u32;
    (0x9 <= n && n <= 0xd) || n == 0x20 || n == 0x85 || n == 0xa0 || n == 0x1680 || (0x2000 <= n
        && n <= 0x200a) || n == 0x2028 || n == 0x2029 || n == 0x202f || n == 0x205f || n == 0x3000
}

/// A text without its leading white space.
pub open spec fn trim_start(s: Seq<char>) -> Seq<char>
    decreases s.len(),
{
    if s.len() > 0 && is_white(s[0]) {
        trim_start(s.drop_first())
    } else {
        s
    }
}

/// A text without its trailing white space.
pub open spec fn trim_end(s: Seq<char>) -> Seq<char>
    decreases s.len(),
{
    if s.len() > 0 && is_white(s.last()) {
        trim_end(s.drop_last())
    } else {
        s
    }
}

/// A text without the white space around it.
pub open spec fn trimmed(s: Seq<char>) -> Seq<char> {
    trim_end(trim_start(s))
}

/// A text without the dots it ends in.
pub open spec fn trim_dots(s: Seq<char>) -> Seq<char>
    decreases s.len(),
{
    if s.len() > 0 && s.last() == '.' {
        trim_dots(s.drop_last())
    } else {
        s
    }
}

/// The text without the white space around it.
pub fn trim<'a>(s: &'a str) -> (r: &'a str)
    ensures
        r@ == trimmed(s@),
{
    let n: usize = s.unicode_len();
    let mut from: usize = 0;
    assert(s@.subrange(0, n as int) =~= s@);
    while from < n && white(s.get_char(from))
        invariant
            from <= n,
            n == s@.len(),
            trim_start(s@.subrange(from as int, n as int)) == trim_start(s@),
        decreases n - from,
    {
        let ghost here = s@.subrange(from as int, n as int);
        assert(here.drop_first() =~= s@.subrange(from + 1, n as int));
        from = from + 1;
    }
    let ghost front = s@.subrange(from as int, n as int);
    assert(trim_start(front) == front);
    let mut to: usize = n;
    while to > from && white(s.get_char(to - 1))
        invariant
            from <= to <= n,
            n == s@.len(),
            front == s@.subrange(from as int, n as int),
            trim_end(s@.subrange(from as int, to as int)) == trim_end(front),
        decreases to - from,
    {
        let ghost here = s@.subrange(from as int, to as int);
        assert(here.drop_last() =~= s@.subrange(from as int, to - 1));
        assert(here.last() == s@[to - 1]);
        to = to - 1;
    }
    proof {
        let here = s@.subrange(from as int, to as int);
        if to > from {
            assert(here.last() == s@[to - 1]);
        }
        assert(trim_end(here) == here);
    }
    s.substring_char(from, to)
}

/// The text without the dots it ends in.
pub fn without_dots<'a>(s: &'a str) -> (r: &'a str)
    ensures
        r@ == trim_dots(s@),
{
    let mut to: usize = s.unicode_len();
    assert(s@.subrange(0, to as int) =~= s@);
    while to > 0 && s.get_char(to - 1) == '.'
        invariant
            to <= s@.len(),
            trim_dots(s@.subrange(0, to as int)) == trim_dots(s@),
        decreases to,
    {
        let ghost here = s@.subrange(0, to as int);
        assert(here.drop_last() =~= s@.subrange(0, to - 1));
        assert(here.last() == s@[to - 1]);
        to = to - 1;
    }
    proof {
        let here = s@.subrange(0, to as int);
        if to > 0 {
            assert(here.last() == s@[to - 1]);
        }
        assert(trim_dots(here) == here);
    }
    s.substring_char(0, to)
}

/// Where `c` first stands in a text; its length where it does not.
pub open spec fn first_at(s: Seq<char>, c: char) -> int
    decreases s.len(),
{
    if s.len() == 0 || s[0] == c {
        0
    } else {
        1 + first_at(s.drop_first(), c)
    }
}

/// It is the first place, and there is none before it.
pub proof fn lemma_first_at(s: Seq<char>, c: char, i: int)
    ensures
        0 <= first_at(s, c) <= s.len(),
        first_at(s, c) < s.len() ==> s[first_at(s, c)] == c,
        0 <= i < s.len() && s[i] == c ==> first_at(s, c) <= i,
        0 <= i < first_at(s, c) ==> s[i] != c,
    decreases s.len(),
{
    if s.len() > 0 && s[0] != c {
        lemma_first_at(s.drop_first(), c, i - 1);
        if 0 < i < s.len() {
            assert(s.drop_first()[i - 1] == s[i]);
        }
    }
}

/// The two parts of a text around the first `c`, if there is one.
pub open spec fn once(s: Seq<char>, c: char) -> Option<(Seq<char>, Seq<char>)> {
    let i = first_at(s, c);
    if i < s.len() {
        Some((s.subrange(0, i), s.subrange(i + 1, s.len() as int)))
    } else {
        None
    }
}

/// The two parts of the text around the first `c`, if there is one.
pub fn split_once<'a>(s: &'a str, c: char) -> (r: Option<(&'a str, &'a str)>)
    ensures
        match r {
            Some((a, b)) => once(s@, c) == Some((a@, b@)),
            None => once(s@, c) is None,
        },
{
    let n: usize = s.unicode_len();
    let mut i: usize = 0;
    while i < n
        invariant
            i <= n,
            n == s@.len(),
            forall|j: int| 0 <= j < i ==> s@[j] != c,
        decreases n - i,
    {
        if s.get_char(i) == c {
            proof {
                lemma_first_at(s@, c, i as int);
            }
            return Some((s.substring_char(0, i), s.substring_char(i + 1, n)));
        }
        i = i + 1;
    }
    proof {
        lemma_first_at(s@, c, first_at(s@, c));
    }
    None
}

/// The parts of a text between the `sep`s in it.
pub open spec fn split(s: Seq<char>, sep: char) -> Seq<Seq<char>>
    decreases s.len(),
{
    if s.len() == 0 {
        seq![Seq::empty()]
    } else {
        let front = split(s.drop_last(), sep);
        if s.last() == sep {
            front.push(Seq::empty())
        } else {
            front.drop_last().push(front.last().push(s.last()))
        }
    }
}

/// There is always at least one part.
pub proof fn lemma_split_len(s: Seq<char>, sep: char)
    ensures
        split(s, sep).len() > 0,
    decreases s.len(),
{
    if s.len() > 0 {
        lemma_split_len(s.drop_last(), sep);
    }
}

/// Parts by content.
pub open spec fn texts(v: Seq<String>) -> Seq<Seq<char>> {
    Seq::new(v.len(), |i: int| v[i]@)
}

/// The parts of the text between the `sep`s in it.
pub fn split_text(s: &str, sep: char) -> (out: Vec<String>)
    ensures
        texts(out@) == split(s@, sep),
{
    let n: usize = s.unicode_len();
    let mut out: Vec<String> = Vec::new();
    let mut from: usize = 0;
    let mut i: usize = 0;
    proof {
        assert(s@.take(0) =~= Seq::empty());
        assert(s@.subrange(0, 0) =~= Seq::empty());
        assert(texts(out@).push(s@.subrange(0, 0)) =~= split(s@.take(0), sep));
    }
    while i < n
        invariant
            from <= i <= n,
            n == s@.len(),
            split(s@.take(i as int), sep) == texts(out@).push(s@.subrange(from as int, i as int)),
        decreases n - i,
    {
        let c: char = s.get_char(i);
        let ghost before = texts(out@);
        let ghost part = s@.subrange(from as int, i as int);
        proof {
            assert(s@.take(i + 1).drop_last() =~= s@.take(i as int));
            assert(s@.take(i + 1).last() == c);
        }
        if c == sep {
            out.push(s.substring_char(from, i).to_owned());
            from = i + 1;
            proof {
                assert(s@.subrange(i + 1, i + 1) =~= Seq::empty());
                assert(texts(out@) =~= before.push(part));
            }
        } else {
            proof {
                assert(before.push(part).drop_last() =~= before);
                assert(part.push(c) =~= s@.subrange(from as int, i + 1));
            }
        }
        i = i + 1;
    }
    proof {
        assert(s@.take(n as int) =~= s@);
        assert(texts(out@).push(s@.subrange(from as int, n as int)) == split(s@, sep));
    }
    let ghost before = texts(out@);
    out.push(s.substring_char(from, n).to_owned());
    assert(texts(out@) =~= before.push(s@.subrange(from as int, n as int)));
    out
}

/// Another part behind a separator.
pub proof fn lemma_split_join(a: Seq<char>, sep: char, b: Seq<char>)
    requires
        !b.contains(sep),
    ensures
        split(a.push(sep) + b, sep) == split(a, sep).push(b),
    decreases b.len(),
{
    lemma_split_len(a, sep);
    let s = a.push(sep) + b;
    if b.len() == 0 {
        assert(s =~= a.push(sep));
        assert(a.push(sep).drop_last() =~= a);
        assert(b =~= Seq::empty());
    } else {
        let front = b.drop_last();
        assert(s.drop_last() =~= a.push(sep) + front);
        assert(s.last() == b.last());
        assert(b.contains(b.last())) by {
            assert(b[b.len() - 1] == b.last());
        }
        assert(!front.contains(sep)) by {
            if front.contains(sep) {
                let i = choose|i: int| 0 <= i < front.len() && front[i] == sep;
                assert(b[i] == sep);
            }
        }
        lemma_split_join(a, sep, front);
        let parts = split(a, sep).push(front);
        assert(parts.drop_last() =~= split(a, sep));
        assert(front.push(b.last()) =~= b);
    }
}

/// A text without separators is one part.
pub proof fn lemma_split_one(b: Seq<char>, sep: char)
    requires
        !b.contains(sep),
    ensures
        split(b, sep) == seq![b],
    decreases b.len(),
{
    if b.len() == 0 {
        assert(b =~= Seq::empty());
    } else {
        let front = b.drop_last();
        assert(!front.contains(sep)) by {
            if front.contains(sep) {
                let i = choose|i: int| 0 <= i < front.len() && front[i] == sep;
                assert(b[i] == sep);
            }
        }
        assert(b[b.len() - 1] == b.last());
        lemma_split_one(front, sep);
        assert(seq![front].drop_last() =~= Seq::empty());
        assert(front.push(b.last()) =~= b);
        assert(split(b, sep) =~= seq![b]);
    }
}

/// Splitting around the first `c` of `a`, `c`, `b` gives `a` and `b`, where `a` has none.
pub proof fn lemma_once(a: Seq<char>, c: char, b: Seq<char>)
    requires
        !a.contains(c),
    ensures
        once(a.push(c) + b, c) == Some((a, b)),
{
    let s = a.push(c) + b;
    assert(s[a.len() as int] == c);
    lemma_first_at(s, c, a.len() as int);
    let i = first_at(s, c);
    if i < a.len() {
        assert(s[i] == a[i]);
    }
    assert(s.subrange(0, i) =~= a);
    assert(s.subrange(i + 1, s.len() as int) =~= b);
}

} // verus!
