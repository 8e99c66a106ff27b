//! Canonical CBOR: the encoding of every frame and every sealed segment.
//!
//! A frame is a flat sequence of items: array heads, unsigned integers, byte
//! strings and text strings. Heads are of the shortest form and lengths are
//! definite, so a sequence of items has exactly one encoding, and a buffer is
//! the encoding of at most one sequence. The contracts of this library speak of
//! item sequences (`Tok`), and the lemmas here tie them to bytes.

use vstd::prelude::*;
use vstd::slice::slice_subrange;
use vstd::utf8::*;

use crate::error::Error;
use crate::hash::{digest_of, Digest32};

verus! {

/// One item of an encoding.
#[verifier::ext_equal]
pub enum Tok {
    /// The head of an array of so many elements.
    Array(u64),
    /// An unsigned integer.
    Uint(u64),
    /// A byte string.
    Bytes(Seq<u8>),
    /// A text string.
    Text(Seq<char>),
}

/// No items: where the description of a frame's items begins.
pub open spec fn items() -> Seq<Tok> {
    Seq::empty()
}

// ---- big-endian numbers ------------------------------------------------------

/// The `k` low base-256 digits of `n`, most significant first.
pub open spec fn be(n: nat, k: nat) -> Seq<u8>
    decreases k,
{
    if k == 0 {
        Seq::empty()
    } else {
        be(n / 256, (k - 1) as nat).push((n % 256) as u8)
    }
}

/// The number whose base-256 digits are `s`, most significant first.
pub open spec fn value(s: Seq<u8>) -> nat
    decreases s.len(),
{
    if s.len() == 0 {
        0
    } else {
        value(s.drop_last()) * 256 + s.last() as nat
    }
}

/// `256` to the power `k`.
pub open spec fn radix(k: nat) -> nat
    decreases k,
{
    if k == 0 {
        1
    } else {
        256 * radix((k - 1) as nat)
    }
}

/// How much some numbers of digits hold.
pub proof fn lemma_radix_values()
    ensures
        radix(1) == 0x100,
        radix(2) == 0x1_0000,
        radix(4) == 0x1_0000_0000,
        radix(8) == 0x1_0000_0000_0000_0000,
{
    reveal_with_fuel(radix, 9);
}

/// A number in `k` digits is `k` bytes long.
pub proof fn lemma_be_len(n: nat, k: nat)
    ensures
        be(n, k).len() == k,
    decreases k,
{
    if k > 0 {
        lemma_be_len(n / 256, (k - 1) as nat);
    }
}

/// A number in enough digits is their value.
pub proof fn lemma_value_be(n: nat, k: nat)
    requires
        n < radix(k),
    ensures
        value(be(n, k)) == n,
    decreases k,
{
    lemma_be_len(n, k);
    if k > 0 {
        lemma_value_be(n / 256, (k - 1) as nat);
        assert(be(n, k).drop_last() =~= be(n / 256, (k - 1) as nat));
    }
}

proof fn lemma_be_value(s: Seq<u8>)
    ensures
        be(value(s), s.len()) == s,
        value(s) < radix(s.len()),
    decreases s.len(),
{
    if s.len() > 0 {
        lemma_be_value(s.drop_last());
        assert(value(s) / 256 == value(s.drop_last()));
        assert(value(s) % 256 == s.last());
        assert(s.drop_last().push(s.last()) =~= s);
    } else {
        assert(s =~= Seq::empty());
    }
}

proof fn lemma_radix_mono(j: nat, k: nat)
    requires
        j <= k,
    ensures
        1 <= radix(j) <= radix(k),
    decreases k,
{
    if j < k {
        lemma_radix_mono(j, (k - 1) as nat);
    } else if k > 0 {
        lemma_radix_mono((j - 1) as nat, (k - 1) as nat);
    }
}

// ---- heads -------------------------------------------------------------------

/// How many bytes of argument follow a head whose low five bits are `info`.
pub open spec fn argument_width(info: int) -> int {
    if info == 24 {
        1
    } else if info == 25 {
        2
    } else if info == 26 {
        4
    } else {
        8
    }
}

/// The low five bits of the shortest head whose argument is `n`.
pub open spec fn head_info(n: u64) -> int {
    if n < 24 {
        n as int
    } else if n < 0x100 {
        24
    } else if n < 0x1_0000 {
        25
    } else if n < 0x1_0000_0000 {
        26
    } else {
        27
    }
}

/// The shortest head of major type `major` with argument `n`.
pub open spec fn head(major: int, n: u64) -> Seq<u8> {
    let first = seq![(major * 32 + head_info(n)) as u8];
    if n < 24 {
        first
    } else {
        first + be(n as nat, argument_width(head_info(n)) as nat)
    }
}

/// The head at the front of `b`: its major type, its argument and its length.
/// `None` where `b` does not begin with a head of the shortest form.
pub open spec fn take_head(b: Seq<u8>) -> Option<(int, u64, int)> {
    if b.len() == 0 {
        None
    } else {
        let major = (b[0] / 32) as int;
        let info = (b[0] % 32) as int;
        let width = argument_width(info);
        if info < 24 {
            Some((major, info as u64, 1int))
        } else if info > 27 || b.len() < 1 + width {
            None
        } else {
            let n = value(b.subrange(1, 1 + width)) as u64;
            if head_info(n) == info {
                Some((major, n, 1 + width))
            } else {
                None
            }
        }
    }
}

proof fn lemma_head_taken(major: int, n: u64, r: Seq<u8>)
    requires
        0 <= major < 8,
    ensures
        take_head(head(major, n) + r) == Some((major, n, head(major, n).len() as int)),
        1 <= head(major, n).len() <= 9,
{
    let b = head(major, n) + r;
    let info = head_info(n);
    assert(b[0] == (major * 32 + info) as u8);
    assert(b[0] / 32 == major && b[0] % 32 == info);
    if n >= 24 {
        let width = argument_width(info);
        lemma_radix_values();
        lemma_be_len(n as nat, width as nat);
        lemma_value_be(n as nat, width as nat);
        assert(b.subrange(1, 1 + width) =~= be(n as nat, width as nat));
    }
}

proof fn lemma_taken_head(b: Seq<u8>)
    ensures
        take_head(b) matches Some((major, n, k)) ==> 0 <= major < 8 && 1 <= k <= b.len()
            && b.subrange(0, k) == head(major, n),
{
    if let Some((major, n, k)) = take_head(b) {
        let info = (b[0] % 32) as int;
        assert(b[0] == (major * 32 + info) as u8);
        if info < 24 {
            assert(b.subrange(0, k) =~= head(major, n));
        } else {
            let width = argument_width(info);
            let arg = b.subrange(1, 1 + width);
            lemma_radix_values();
            lemma_be_value(arg);
            assert(b.subrange(0, k) =~= seq![b[0]] + arg);
        }
    }
}

// ---- items -------------------------------------------------------------------

/// Whether the lengths in `t` can be written in a head.
pub open spec fn encodable(t: Tok) -> bool {
    match t {
        Tok::Bytes(s) => s.len() <= u64::MAX,
        Tok::Text(c) => encode_utf8(c).len() <= u64::MAX,
        _ => true,
    }
}

/// Whether every item of `ts` can be written.
pub open spec fn all_encodable(ts: Seq<Tok>) -> bool {
    forall|i: int| 0 <= i < ts.len() ==> encodable(#[trigger] ts[i])
}

/// The encoding of one item.
pub open spec fn enc_tok(t: Tok) -> Seq<u8> {
    match t {
        Tok::Uint(n) => head(0, n),
        Tok::Bytes(s) => head(2, s.len() as u64) + s,
        Tok::Text(c) => head(3, encode_utf8(c).len() as u64) + encode_utf8(c),
        Tok::Array(n) => head(4, n),
    }
}

/// The encoding of a sequence of items.
#[verifier::opaque]
pub open spec fn enc(ts: Seq<Tok>) -> Seq<u8>
    decreases ts.len(),
{
    if ts.len() == 0 {
        Seq::empty()
    } else {
        enc(ts.drop_last()) + enc_tok(ts.last())
    }
}

/// The item at the front of `b`, and its length in bytes.
pub open spec fn first_tok(b: Seq<u8>) -> Option<(Tok, int)> {
    match take_head(b) {
        None => None,
        Some((major, n, k)) => {
            let body = b.subrange(k, k + n);
            if major == 0 {
                Some((Tok::Uint(n), k))
            } else if major == 4 {
                Some((Tok::Array(n), k))
            } else if major == 2 && k + n <= b.len() {
                Some((Tok::Bytes(body), k + n))
            } else if major == 3 && k + n <= b.len() && valid_utf8(body) {
                Some((Tok::Text(decode_utf8(body)), k + n))
            } else {
                None
            }
        },
    }
}

/// The longest sequence of whole items at the front of `b`.
#[verifier::opaque]
pub open spec fn toks_of(b: Seq<u8>) -> Seq<Tok>
    decreases b.len(),
{
    match first_tok(b) {
        None => Seq::empty(),
        Some((t, k)) => if 0 < k <= b.len() {
            seq![t] + toks_of(b.skip(k))
        } else {
            Seq::empty()
        },
    }
}

/// Whether nothing but whole items stands in `b`.
#[verifier::opaque]
pub open spec fn clean(b: Seq<u8>) -> bool
    decreases b.len(),
{
    match first_tok(b) {
        None => b.len() == 0,
        Some((t, k)) => 0 < k <= b.len() && clean(b.skip(k)),
    }
}

/// An item at the front of a buffer is read back, whatever follows it.
pub proof fn law_item_read_back(t: Tok, r: Seq<u8>)
    requires
        encodable(t),
    ensures
        first_tok(enc_tok(t) + r) == Some((t, enc_tok(t).len() as int)),
        enc_tok(t).len() > 0,
{
    let b = enc_tok(t) + r;
    match t {
        Tok::Uint(n) => {
            lemma_head_taken(0, n, r);
        },
        Tok::Array(n) => {
            lemma_head_taken(4, n, r);
        },
        Tok::Bytes(s) => {
            let h = head(2, s.len() as u64);
            lemma_head_taken(2, s.len() as u64, s + r);
            assert(b =~= h + (s + r));
            assert(b.subrange(h.len() as int, (h.len() + s.len()) as int) =~= s);
        },
        Tok::Text(c) => {
            let s = encode_utf8(c);
            let h = head(3, s.len() as u64);
            encode_utf8_valid_utf8(c);
            encode_utf8_decode_utf8(c);
            lemma_head_taken(3, s.len() as u64, s + r);
            assert(b =~= h + (s + r));
            assert(b.subrange(h.len() as int, (h.len() + s.len()) as int) =~= s);
        },
    }
}

/// What is read as an item is the encoding of that item: no item has a second
/// encoding.
pub proof fn law_item_is_canonical(b: Seq<u8>)
    ensures
        first_tok(b) matches Some((t, k)) ==> 0 < k <= b.len() && encodable(t) && b.subrange(0, k)
            == enc_tok(t),
{
    lemma_taken_head(b);
    if let Some((t, k)) = first_tok(b) {
        let (major, n, h) = take_head(b).unwrap();
        if major == 2 || major == 3 {
            let body = b.subrange(h, h + n);
            if major == 3 {
                decode_utf8_encode_utf8(body);
            }
            assert(b.subrange(0, k) =~= b.subrange(0, h) + body);
        }
    }
}

proof fn lemma_enc_front(t: Tok, ts: Seq<Tok>)
    ensures
        enc(seq![t] + ts) == enc_tok(t) + enc(ts),
    decreases ts.len(),
{
    reveal(enc);
    let all = seq![t] + ts;
    if ts.len() == 0 {
        assert(all.drop_last() =~= Seq::<Tok>::empty());
        assert(enc(all.drop_last()) =~= Seq::empty());
        assert(enc(all) =~= enc_tok(t) + enc(ts));
    } else {
        lemma_enc_front(t, ts.drop_last());
        assert(all.drop_last() =~= seq![t] + ts.drop_last());
        assert(enc(all) =~= enc_tok(t) + enc(ts));
    }
}

/// A sequence of items is read back from its encoding, and nothing is left over.
pub proof fn law_items_read_back(ts: Seq<Tok>)
    requires
        all_encodable(ts),
    ensures
        toks_of(enc(ts)) == ts,
        clean(enc(ts)),
    decreases ts.len(),
{
    reveal(toks_of);
    reveal(clean);
    reveal(enc);
    let b = enc(ts);
    if ts.len() == 0 {
        assert(take_head(b) is None);
        assert(ts =~= Seq::empty());
    } else {
        let tail = ts.skip(1);
        assert(ts =~= seq![ts[0]] + tail);
        lemma_enc_front(ts[0], tail);
        law_item_read_back(ts[0], enc(tail));
        law_items_read_back(tail);
        assert(b.skip(enc_tok(ts[0]).len() as int) =~= enc(tail));
    }
}

/// A buffer that holds nothing but items is the encoding of those items.
pub proof fn law_clean_is_canonical(b: Seq<u8>)
    requires
        clean(b),
    ensures
        enc(toks_of(b)) == b,
        all_encodable(toks_of(b)),
    decreases b.len(),
{
    reveal(toks_of);
    reveal(clean);
    reveal(enc);
    law_item_is_canonical(b);
    match first_tok(b) {
        None => {
            assert(b =~= Seq::empty());
        },
        Some((t, k)) => {
            law_clean_is_canonical(b.skip(k));
            lemma_enc_front(t, toks_of(b.skip(k)));
            assert(b =~= b.subrange(0, k) + b.skip(k));
        },
    }
}

/// Two item sequences with one encoding are the same sequence.
pub proof fn law_encoding_is_injective(a: Seq<Tok>, b: Seq<Tok>)
    requires
        all_encodable(a),
        all_encodable(b),
        enc(a) == enc(b),
    ensures
        a == b,
{
    law_items_read_back(a);
    law_items_read_back(b);
}

pub(crate) proof fn lemma_toks_step(b: Seq<u8>)
    ensures
        match first_tok(b) {
            None => toks_of(b).len() == 0 && clean(b) == (b.len() == 0),
            Some((t, k)) => 0 < k <= b.len() && toks_of(b).len() > 0 && toks_of(b)[0] == t
                && toks_of(b).drop_first() == toks_of(b.skip(k)) && clean(b) == clean(b.skip(k)),
        },
{
    reveal(toks_of);
    reveal(clean);
    law_item_is_canonical(b);
    if let Some((t, k)) = first_tok(b) {
        assert(toks_of(b).drop_first() =~= toks_of(b.skip(k)));
    }
}

/// Items at the front of a buffer are read back, whatever follows them.
pub proof fn law_front_read_back(ts: Seq<Tok>, r: Seq<u8>)
    requires
        all_encodable(ts),
    ensures
        toks_of(enc(ts) + r) == ts + toks_of(r),
        clean(enc(ts) + r) == clean(r),
    decreases ts.len(),
{
    reveal(enc);
    if ts.len() == 0 {
        assert(enc(ts) + r =~= r);
        assert(ts + toks_of(r) =~= toks_of(r));
    } else {
        let front = ts.drop_last();
        let last = ts.last();
        let mid = enc_tok(last) + r;
        assert(all_encodable(front)) by {
            assert forall|i: int| 0 <= i < front.len() implies encodable(#[trigger] front[i]) by {
                assert(encodable(ts[i]));
            }
        }
        law_front_read_back(front, mid);
        assert(enc(ts) + r =~= enc(front) + mid);
        assert(encodable(ts[ts.len() - 1]));
        law_item_read_back(last, r);
        lemma_toks_step(mid);
        assert(mid.skip(enc_tok(last).len() as int) =~= r);
        assert(toks_of(mid) =~= seq![last] + toks_of(r));
        assert(ts + toks_of(r) =~= front + toks_of(mid));
    }
}

// ---- reading -----------------------------------------------------------------

/// Where a reader stands: the items still ahead of it, whether the buffer ends
/// cleanly behind them, and the error it has stopped at.
///
/// A grammar is a chain of steps; a step on a reader that has stopped leaves it
/// as it is, so `bad` at the end of the chain is the first error in reading
/// order.
#[verifier::ext_equal]
pub struct Cur {
    /// The items ahead.
    pub toks: Seq<Tok>,
    /// Whether nothing but these items is ahead.
    pub clean: bool,
    /// The error that stopped the reading.
    pub bad: Option<Error>,
}

impl Cur {
    /// A reader at the front of `b`.
    pub open spec fn at(b: Seq<u8>) -> Cur {
        Cur { toks: toks_of(b), clean: clean(b), bad: None }
    }

    /// The same reader, stopped at `e` unless it has stopped already.
    pub open spec fn fail(self, e: Error) -> Cur {
        if self.bad is Some {
            self
        } else {
            Cur { bad: Some(e), ..self }
        }
    }

    /// The reader past the next item, where that item is as `ok` says; stopped at
    /// `e` otherwise.
    pub open spec fn next(self, ok: bool, e: Error) -> Cur {
        if self.bad is Some {
            self
        } else if ok {
            Cur { toks: self.toks.drop_first(), ..self }
        } else {
            Cur { bad: Some(e), ..self }
        }
    }

    /// Reads an array head.
    pub open spec fn array(self, e: Error) -> Cur {
        self.next(self.toks.len() > 0 && self.toks[0] is Array, e)
    }

    /// Reads an unsigned integer.
    pub open spec fn uint(self, e: Error) -> Cur {
        self.next(self.toks.len() > 0 && self.toks[0] is Uint, e)
    }

    /// Reads a byte string.
    pub open spec fn bytes(self, e: Error) -> Cur {
        self.next(self.toks.len() > 0 && self.toks[0] is Bytes, e)
    }

    /// Reads a text string.
    pub open spec fn text(self, e: Error) -> Cur {
        self.next(self.toks.len() > 0 && self.toks[0] is Text, e)
    }

    /// Reads a byte string of 32 bytes.
    pub open spec fn digest(self, kind: Error, length: Error) -> Cur {
        self.bytes(kind).check(self.peek_bytes().len() == 32, length)
    }

    /// Reads a byte string of 32 bytes, or an empty one.
    pub open spec fn opt_digest(self, kind: Error, length: Error) -> Cur {
        self.bytes(kind).check(
            self.peek_bytes().len() == 0 || self.peek_bytes().len() == 32,
            length,
        )
    }

    /// Reads an integer that is 0 or 1.
    pub open spec fn flag(self, kind: Error, range: Error) -> Cur {
        self.uint(kind).check(self.peek_uint() <= 1, range)
    }

    /// Stops at `e` where `good` does not hold.
    pub open spec fn check(self, good: bool, e: Error) -> Cur {
        if good {
            self
        } else {
            self.fail(e)
        }
    }

    /// Reads the end of the buffer.
    pub open spec fn end(self, e: Error) -> Cur {
        self.check(self.toks.len() == 0 && self.clean, e)
    }

    /// The number ahead, where an integer is ahead.
    pub open spec fn peek_uint(self) -> u64 {
        self.toks[0]->Uint_0
    }

    /// The length ahead, where an array head is ahead.
    pub open spec fn peek_array(self) -> u64 {
        self.toks[0]->Array_0
    }

    /// The byte string ahead, where one is ahead.
    pub open spec fn peek_bytes(self) -> Seq<u8> {
        self.toks[0]->Bytes_0
    }

    /// The text ahead, where a text string is ahead.
    pub open spec fn peek_text(self) -> Seq<char> {
        self.toks[0]->Text_0
    }
}

// ---- lists -------------------------------------------------------------------

/// The reader past `n` elements, each read by `step`.
pub open spec fn many(c: Cur, n: nat, step: spec_fn(Cur) -> Cur) -> Cur
    decreases n,
{
    if n == 0 {
        c
    } else {
        step(many(c, (n - 1) as nat, step))
    }
}

/// `base` and behind it the items of each of `xs`.
pub open spec fn put_all<T>(base: Seq<Tok>, xs: Seq<T>, item: spec_fn(T) -> Seq<Tok>) -> Seq<Tok>
    decreases xs.len(),
{
    if xs.len() == 0 {
        base
    } else {
        put_all(base, xs.drop_last(), item) + item(xs.last())
    }
}

/// How many items there are behind `base`.
pub proof fn lemma_put_all_len<T>(
    base: Seq<Tok>,
    xs: Seq<T>,
    item: spec_fn(T) -> Seq<Tok>,
    width: nat,
)
    requires
        forall|x: T| (#[trigger] item(x)).len() == width,
    ensures
        put_all(base, xs, item).len() == base.len() + width * xs.len(),
    decreases xs.len(),
{
    if xs.len() > 0 {
        lemma_put_all_len(base, xs.drop_last(), item, width);
        let n = xs.len();
        assert(width * (n - 1) + width == width * n) by (nonlinear_arith);
    }
}

/// Whether an item holds no more than `most` bytes.
pub open spec fn small(t: Tok, most: nat) -> bool {
    match t {
        Tok::Bytes(s) => s.len() <= most,
        Tok::Text(c) => encode_utf8(c).len() <= most,
        _ => true,
    }
}

/// An encoding is no longer than its items are together.
pub proof fn lemma_enc_len(ts: Seq<Tok>, most: nat)
    requires
        forall|i: int| 0 <= i < ts.len() ==> small(#[trigger] ts[i], most),
    ensures
        enc(ts).len() <= ts.len() * (most + 9),
    decreases ts.len(),
{
    reveal(enc);
    if ts.len() > 0 {
        let front = ts.drop_last();
        assert forall|i: int| 0 <= i < front.len() implies small(#[trigger] front[i], most) by {
            assert(front[i] == ts[i]);
        }
        lemma_enc_len(front, most);
        assert(small(ts[ts.len() - 1], most));
        match ts.last() {
            Tok::Uint(n) => lemma_head_taken(0, n, Seq::empty()),
            Tok::Bytes(s) => lemma_head_taken(2, s.len() as u64, Seq::empty()),
            Tok::Text(c) => lemma_head_taken(3, encode_utf8(c).len() as u64, Seq::empty()),
            Tok::Array(n) => lemma_head_taken(4, n, Seq::empty()),
        }
        let n = ts.len();
        assert((n - 1) * (most + 9) + (most + 9) == n * (most + 9)) by (nonlinear_arith);
    }
}

/// Whether `step` leaves a stopped reader as it is.
pub open spec fn sticky(step: spec_fn(Cur) -> Cur) -> bool {
    forall|c: Cur| c.bad is Some ==> #[trigger] step(c) == c
}

/// Whether `step` reads back what `item` writes of each of `xs`.
pub open spec fn reads_back<T>(
    xs: Seq<T>,
    item: spec_fn(T) -> Seq<Tok>,
    step: spec_fn(Cur) -> Cur,
) -> bool {
    forall|i: int, c: Cur, tail: Seq<Tok>|
        0 <= i < xs.len() && c.bad is None && c.toks == #[trigger] (item(#[trigger] xs[i]) + tail)
            ==> #[trigger] step(c) == (Cur { toks: tail, ..c })
}

/// A list that failed at an element stays failed.
pub proof fn lemma_many_stuck(c: Cur, k: nat, n: nat, step: spec_fn(Cur) -> Cur)
    requires
        k <= n,
        sticky(step),
        many(c, k, step).bad is Some,
    ensures
        many(c, n, step) == many(c, k, step),
    decreases n,
{
    if k < n {
        lemma_many_stuck(c, k, (n - 1) as nat, step);
    }
}

/// The items of a list stand behind whatever was written before it.
pub proof fn lemma_put_all_base<T>(base: Seq<Tok>, xs: Seq<T>, item: spec_fn(T) -> Seq<Tok>)
    ensures
        put_all(base, xs, item) == base + put_all(items(), xs, item),
    decreases xs.len(),
{
    if xs.len() > 0 {
        lemma_put_all_base(base, xs.drop_last(), item);
        assert(put_all(base, xs, item) =~= base + put_all(items(), xs, item));
    } else {
        assert(base =~= base + put_all(items(), xs, item));
    }
}

/// Lists of items of one width are the same item by item where what they write is the
/// same.
pub proof fn lemma_put_all_parts<T>(
    a: Seq<Tok>,
    b: Seq<Tok>,
    xs: Seq<T>,
    ys: Seq<T>,
    item: spec_fn(T) -> Seq<Tok>,
    width: nat,
)
    requires
        width > 0,
        a.len() == b.len(),
        forall|x: T| (#[trigger] item(x)).len() == width,
        put_all(a, xs, item) == put_all(b, ys, item),
    ensures
        a == b,
        xs.len() == ys.len(),
        forall|i: int| 0 <= i < xs.len() ==> item(#[trigger] xs[i]) == item(#[trigger] ys[i]),
    decreases xs.len(),
{
    lemma_put_all_len(a, xs, item, width);
    lemma_put_all_len(b, ys, item, width);
    let (m, n) = (xs.len(), ys.len());
    assert(m == n) by (nonlinear_arith)
        requires
            width * m == width * n,
            width > 0,
    ;
    if xs.len() > 0 {
        let whole = put_all(a, xs, item);
        let front = put_all(a, xs.drop_last(), item);
        let other = put_all(b, ys.drop_last(), item);
        assert(whole == front + item(xs.last()));
        assert(whole == other + item(ys.last()));
        assert(front.len() == other.len());
        assert(front =~= whole.take(front.len() as int));
        assert(other =~= whole.take(front.len() as int));
        assert(item(xs.last()) =~= whole.skip(front.len() as int));
        assert(item(ys.last()) =~= whole.skip(front.len() as int));
        lemma_put_all_parts(a, b, xs.drop_last(), ys.drop_last(), item, width);
        assert forall|i: int| 0 <= i < xs.len() implies item(#[trigger] xs[i]) == item(
            #[trigger] ys[i],
        ) by {
            if i < xs.len() - 1 {
                assert(xs.drop_last()[i] == xs[i]);
                assert(ys.drop_last()[i] == ys[i]);
            }
        }
    }
}

/// One more element of a list.
pub proof fn lemma_put_all_push<T>(
    base: Seq<Tok>,
    xs: Seq<T>,
    x: T,
    item: spec_fn(T) -> Seq<Tok>,
)
    ensures
        put_all(base, xs.push(x), item) == put_all(base, xs, item) + item(x),
{
    assert(xs.push(x).drop_last() =~= xs);
}

/// A list is read back, whatever follows it.
pub proof fn lemma_many_read<T>(
    c: Cur,
    xs: Seq<T>,
    item: spec_fn(T) -> Seq<Tok>,
    step: spec_fn(Cur) -> Cur,
    tail: Seq<Tok>,
)
    requires
        c.bad is None,
        c.toks == put_all(items(), xs, item) + tail,
        reads_back(xs, item, step),
    ensures
        many(c, xs.len(), step) == (Cur { toks: tail, ..c }),
    decreases xs.len(),
{
    if xs.len() == 0 {
        assert(c.toks =~= tail);
    } else {
        let front = xs.drop_last();
        let last = item(xs.last()) + tail;
        assert(c.toks =~= put_all(items(), front, item) + last);
        assert(reads_back(front, item, step)) by {
            assert forall|i: int, d: Cur, t: Seq<Tok>|
                0 <= i < front.len() && d.bad is None && d.toks == #[trigger] (item(
                    #[trigger] front[i],
                ) + t) implies #[trigger] step(d) == (Cur { toks: t, ..d }) by {
                assert(front[i] == xs[i]);
            }
        }
        lemma_many_read(c, front, item, step, last);
        let d = many(c, front.len(), step);
        assert(d.toks == item(xs[xs.len() - 1]) + tail);
        assert(step(d) == (Cur { toks: tail, ..d }));
    }
}

/// The error of a read that names nothing closer.
pub open spec fn raw() -> Error {
    Error::Cbor("cbor")
}

/// The bytes that stand for an optional digest: none where it is absent.
pub open spec fn opt_bytes(d: Option<Digest32>) -> Seq<u8> {
    match d {
        Some(d) => d@,
        None => Seq::empty(),
    }
}

/// An optional digest is told by its bytes.
pub proof fn lemma_opt_ext(a: Option<Digest32>, b: Option<Digest32>)
    ensures
        (opt_bytes(a) == opt_bytes(b)) == (a == b),
{
    match (a, b) {
        (Some(x), Some(y)) => crate::hash::lemma_digest_ext(x, y),
        (Some(x), None) => assert(x@.len() == 32),
        (None, Some(y)) => assert(y@.len() == 32),
        (None, None) => {},
    }
}

/// The integer that stands for a flag.
pub open spec fn flag_value(b: bool) -> u64 {
    if b {
        1
    } else {
        0
    }
}

/// `String::from_utf8` of the standard library: the text whose UTF-8 bytes are
/// `v`, or `None` where `v` is not valid UTF-8.
#[verifier::external_body]
fn text_of_utf8(v: Vec<u8>) -> (r: Option<String>)
    ensures
        r is Some <==> valid_utf8(v@),
        r matches Some(s) ==> s@ == decode_utf8(v@),
{
    String::from_utf8(v).ok()
}

/// A reader over a buffer.
pub struct Decoder<'a> {
    buf: &'a [u8],
    pos: usize,
    read: Ghost<Seq<Tok>>,
}

impl<'a> Decoder<'a> {
    /// What every reader keeps: the items read and those ahead are the items of
    /// the buffer.
    pub closed spec fn wf(&self) -> bool {
        &&& self.pos <= self.buf@.len()
        &&& toks_of(self.buf@) == self.read@ + toks_of(self.rest())
        &&& clean(self.buf@) == clean(self.rest())
        &&& self.buf@ == enc(self.read@) + self.rest()
    }

    /// The bytes not yet read.
    pub closed spec fn rest(&self) -> Seq<u8> {
        self.buf@.skip(self.pos as int)
    }

    /// The buffer that is read.
    pub closed spec fn buffer(&self) -> Seq<u8> {
        self.buf@
    }

    /// The items read so far.
    pub closed spec fn seen(&self) -> Seq<Tok> {
        self.read@
    }

    /// What is ahead.
    pub open spec fn cur(&self) -> Cur {
        Cur::at(self.rest())
    }

    /// What was read is the front of what the buffer holds.
    pub proof fn lemma_seen_is_prefix(&self)
        requires
            self.wf(),
        ensures
            self.seen().is_prefix_of(toks_of(self.buffer())),
    {
        assert(self.read@ =~= (self.read@ + toks_of(self.rest())).subrange(
            0,
            self.read@.len() as int,
        ));
    }

    /// A reader at the front of `b`.
    pub fn new(b: &'a [u8]) -> (d: Decoder<'a>)
        ensures
            d.wf(),
            d.buffer() == b@,
            d.seen() == Seq::<Tok>::empty(),
            d.cur() == Cur::at(b@),
    {
        proof {
            assert(b@.skip(0) =~= b@);
            assert(toks_of(b@) =~= Seq::<Tok>::empty() + toks_of(b@));
            reveal(enc);
            assert(b@ =~= enc(Seq::<Tok>::empty()) + b@);
        }
        Decoder { buf: b, pos: 0, read: Ghost(Seq::empty()) }
    }

    /// The head at the front of what is ahead, with its length.
    fn peek_head(&self) -> (r: Option<(u8, u64, usize)>)
        requires
            self.wf(),
        ensures
            match r {
                None => take_head(self.rest()) is None,
                Some((major, n, k)) => take_head(self.rest()) == Some((major as int, n, k as int)),
            },
    {
        let left: usize = self.buf.len() - self.pos;
        if left == 0 {
            return None;
        }
        let b0: u8 = self.buf[self.pos];
        let major: u8 = b0 / 32;
        let info: u8 = b0 % 32;
        if info < 24 {
            return Some((major, info as u64, 1));
        }
        if info > 27 {
            return None;
        }
        let width: usize = if info == 24 {
            1
        } else if info == 25 {
            2
        } else if info == 26 {
            4
        } else {
            8
        };
        if left - 1 < width {
            return None;
        }
        let ghost arg = self.rest().subrange(1, 1 + width);
        let mut n: u64 = 0;
        let mut i: usize = 0;
        proof {
            lemma_radix_values();
            assert(arg.subrange(0, 0) =~= Seq::empty());
        }
        while i < width
            invariant
                i <= width <= 8,
                self.pos + 1 + width <= self.buf@.len() <= usize::MAX,
                arg == self.rest().subrange(1, 1 + width),
                n == value(arg.subrange(0, i as int)),
                radix(8) == 0x1_0000_0000_0000_0000,
            decreases width - i,
        {
            let d: u8 = self.buf[self.pos + 1 + i];
            proof {
                let next = arg.subrange(0, i + 1);
                assert(next.drop_last() =~= arg.subrange(0, i as int));
                assert(next.last() == d);
                lemma_be_value(next);
                lemma_radix_mono((i + 1) as nat, 8);
            }
            n = n * 256 + d as u64;
            i = i + 1;
        }
        proof {
            assert(arg.subrange(0, width as int) =~= arg);
        }
        let least: bool = if info == 24 {
            24 <= n && n < 0x100
        } else if info == 25 {
            0x100 <= n && n < 0x1_0000
        } else if info == 26 {
            0x1_0000 <= n && n < 0x1_0000_0000
        } else {
            0x1_0000_0000 <= n
        };
        if least {
            Some((major, n, 1 + width))
        } else {
            None
        }
    }

    /// Moves past an item of `k` bytes.
    fn advance(&mut self, k: usize, Ghost(t): Ghost<Tok>)
        requires
            old(self).wf(),
            first_tok(old(self).rest()) == Some((t, k as int)),
        ensures
            final(self).wf(),
            final(self).buffer() == old(self).buffer(),
            final(self).seen() == old(self).seen().push(t),
            old(self).cur().toks.len() > 0,
            old(self).cur().toks[0] == t,
            final(self).cur() == (Cur {
                toks: old(self).cur().toks.drop_first(),
                ..old(self).cur()
            }),
    {
        let total: usize = self.buf.len();
        proof {
            lemma_toks_step(self.rest());
            assert(total == self.buf@.len());
            assert(self.buf@.skip(self.pos + k) =~= self.rest().skip(k as int));
            assert(self.read@.push(t) + toks_of(self.rest().skip(k as int)) =~= self.read@
                + toks_of(self.rest()));
            law_item_is_canonical(self.rest());
            reveal(enc);
            assert(self.read@.push(t).drop_last() =~= self.read@);
            assert(self.rest() =~= enc_tok(t) + self.rest().skip(k as int));
            assert(self.buf@ =~= enc(self.read@.push(t)) + self.rest().skip(k as int));
        }
        self.pos = self.pos + k;
        self.read = Ghost(self.read@.push(t));
    }

    /// The bytes not yet read, as they stand. What was read is what is in front of them.
    pub fn remaining(&self) -> (r: &'a [u8])
        requires
            self.wf(),
        ensures
            r@ == self.rest(),
            self.buffer() == enc(self.seen()) + r@,
    {
        slice_subrange(self.buf, self.pos, self.buf.len())
    }

    /// Reads an array head: how many elements follow.
    pub fn array(&mut self, e: Error) -> (r: Result<u64, Error>)
        requires
            old(self).wf(),
        ensures
            final(self).wf(),
            final(self).buffer() == old(self).buffer(),
            match r {
                Ok(n) => {
                    &&& old(self).cur().toks.len() > 0 && old(self).cur().toks[0] == Tok::Array(n)
                    &&& final(self).cur() == old(self).cur().array(e)
                    &&& final(self).seen() == old(self).seen().push(Tok::Array(n))
                },
                Err(x) => x == e && old(self).cur().array(e).bad == Some(e),
            },
    {
        proof {
            lemma_toks_step(self.rest());
        }
        match self.peek_head() {
            Some((major, n, k)) => {
                if major == 4 {
                    self.advance(k, Ghost(Tok::Array(n)));
                    return Ok(n);
                }
                Err(e)
            },
            None => Err(e),
        }
    }

    /// Reads an unsigned integer.
    pub fn uint(&mut self, e: Error) -> (r: Result<u64, Error>)
        requires
            old(self).wf(),
        ensures
            final(self).wf(),
            final(self).buffer() == old(self).buffer(),
            match r {
                Ok(n) => {
                    &&& old(self).cur().toks.len() > 0 && old(self).cur().toks[0] == Tok::Uint(n)
                    &&& final(self).cur() == old(self).cur().uint(e)
                    &&& final(self).seen() == old(self).seen().push(Tok::Uint(n))
                },
                Err(x) => x == e && old(self).cur().uint(e).bad == Some(e),
            },
    {
        proof {
            lemma_toks_step(self.rest());
        }
        match self.peek_head() {
            Some((major, n, k)) => {
                if major == 0 {
                    self.advance(k, Ghost(Tok::Uint(n)));
                    return Ok(n);
                }
                Err(e)
            },
            None => Err(e),
        }
    }

    /// Reads a byte string.
    pub fn bytes(&mut self, e: Error) -> (r: Result<&'a [u8], Error>)
        requires
            old(self).wf(),
        ensures
            final(self).wf(),
            final(self).buffer() == old(self).buffer(),
            match r {
                Ok(s) => {
                    &&& old(self).cur().toks.len() > 0 && old(self).cur().toks[0] == Tok::Bytes(s@)
                    &&& final(self).cur() == old(self).cur().bytes(e)
                    &&& final(self).seen() == old(self).seen().push(Tok::Bytes(s@))
                },
                Err(x) => x == e && old(self).cur().bytes(e).bad == Some(e),
            },
    {
        proof {
            lemma_toks_step(self.rest());
            lemma_taken_head(self.rest());
        }
        match self.peek_head() {
            Some((major, n, k)) => {
                if major != 2 || n > (self.buf.len() - self.pos - k) as u64 {
                    return Err(e);
                }
                let from: usize = self.pos + k;
                let len: usize = n as usize;
                let s: &'a [u8] = slice_subrange(self.buf, from, from + len);
                proof {
                    assert(s@ =~= self.rest().subrange(k as int, k + n));
                }
                self.advance(k + len, Ghost(Tok::Bytes(s@)));
                Ok(s)
            },
            None => Err(e),
        }
    }

    /// Reads a text string.
    pub fn text(&mut self, e: Error) -> (r: Result<String, Error>)
        requires
            old(self).wf(),
        ensures
            final(self).wf(),
            final(self).buffer() == old(self).buffer(),
            match r {
                Ok(s) => {
                    &&& old(self).cur().toks.len() > 0 && old(self).cur().toks[0] == Tok::Text(s@)
                    &&& final(self).cur() == old(self).cur().text(e)
                    &&& final(self).seen() == old(self).seen().push(Tok::Text(s@))
                },
                Err(x) => x == e && old(self).cur().text(e).bad == Some(e),
            },
    {
        proof {
            lemma_toks_step(self.rest());
            lemma_taken_head(self.rest());
        }
        match self.peek_head() {
            Some((major, n, k)) => {
                if major != 3 || n > (self.buf.len() - self.pos - k) as u64 {
                    return Err(e);
                }
                let from: usize = self.pos + k;
                let len: usize = n as usize;
                let body: &'a [u8] = slice_subrange(self.buf, from, from + len);
                proof {
                    assert(body@ =~= self.rest().subrange(k as int, k + n));
                }
                match text_of_utf8(vstd::slice::slice_to_vec(body)) {
                    Some(s) => {
                        self.advance(k + len, Ghost(Tok::Text(s@)));
                        Ok(s)
                    },
                    None => Err(e),
                }
            },
            None => Err(e),
        }
    }

    /// Reads a byte string of 32 bytes.
    pub fn digest(&mut self, kind: Error, length: Error) -> (r: Result<Digest32, Error>)
        requires
            old(self).wf(),
        ensures
            final(self).wf(),
            final(self).buffer() == old(self).buffer(),
            match r {
                Ok(d) => {
                    &&& old(self).cur().toks.len() > 0 && old(self).cur().toks[0] == Tok::Bytes(d@)
                    &&& final(self).cur() == old(self).cur().digest(kind, length)
                    &&& final(self).seen() == old(self).seen().push(Tok::Bytes(d@))
                },
                Err(x) => old(self).cur().digest(kind, length).bad == Some(x),
            },
    {
        let b: &[u8] = self.bytes(kind)?;
        match digest_of(b) {
            Some(d) => Ok(d),
            None => Err(length),
        }
    }

    /// Reads a byte string of 32 bytes, or an empty one.
    pub fn opt_digest(&mut self, kind: Error, length: Error) -> (r: Result<Option<Digest32>, Error>)
        requires
            old(self).wf(),
        ensures
            final(self).wf(),
            final(self).buffer() == old(self).buffer(),
            match r {
                Ok(d) => {
                    &&& old(self).cur().toks.len() > 0 && old(self).cur().toks[0] == Tok::Bytes(
                        opt_bytes(d),
                    )
                    &&& final(self).cur() == old(self).cur().opt_digest(kind, length)
                    &&& final(self).seen() == old(self).seen().push(Tok::Bytes(opt_bytes(d)))
                },
                Err(x) => old(self).cur().opt_digest(kind, length).bad == Some(x),
            },
    {
        let b: &[u8] = self.bytes(kind)?;
        if b.len() == 0 {
            assert(b@ =~= Seq::empty());
            return Ok(None);
        }
        match digest_of(b) {
            Some(d) => Ok(Some(d)),
            None => Err(length),
        }
    }

    /// Reads an integer that is 0 or 1.
    pub fn flag(&mut self, kind: Error, range: Error) -> (r: Result<bool, Error>)
        requires
            old(self).wf(),
        ensures
            final(self).wf(),
            final(self).buffer() == old(self).buffer(),
            match r {
                Ok(b) => {
                    &&& old(self).cur().toks.len() > 0 && old(self).cur().toks[0] == Tok::Uint(
                        flag_value(b),
                    )
                    &&& final(self).cur() == old(self).cur().flag(kind, range)
                    &&& final(self).seen() == old(self).seen().push(Tok::Uint(flag_value(b)))
                },
                Err(x) => old(self).cur().flag(kind, range).bad == Some(x),
            },
    {
        let n: u64 = self.uint(kind)?;
        if n == 0 {
            Ok(false)
        } else if n == 1 {
            Ok(true)
        } else {
            Err(range)
        }
    }

    /// Checks that the whole buffer was read.
    pub fn finish(&self, e: Error) -> (r: Result<(), Error>)
        requires
            self.wf(),
        ensures
            match r {
                Ok(_) => {
                    &&& self.cur().end(e) == self.cur()
                    &&& self.cur().bad is None
                    &&& self.seen() == toks_of(self.buffer())
                    &&& clean(self.buffer())
                    &&& self.buffer() == enc(self.seen())
                },
                Err(x) => x == e && self.cur().end(e).bad == Some(e),
            },
    {
        proof {
            lemma_toks_step(self.rest());
        }
        if self.pos == self.buf.len() {
            proof {
                assert(self.rest() =~= Seq::empty());
                assert(take_head(self.rest()) is None);
                assert(self.read@ + toks_of(self.rest()) =~= self.read@);
                law_clean_is_canonical(self.buf@);
            }
            Ok(())
        } else {
            Err(e)
        }
    }
}

// ---- writing -----------------------------------------------------------------

/// Appends the `k` low base-256 digits of `n`.
pub(crate) fn put_be(buf: &mut Vec<u8>, n: u64, k: usize)
    ensures
        final(buf)@ == old(buf)@ + be(n as nat, k as nat),
    decreases k,
{
    if k > 0 {
        put_be(buf, n / 256, k - 1);
        let ghost mid = buf@;
        buf.push((n % 256) as u8);
        assert(buf@ =~= old(buf)@ + be(n as nat, k as nat));
    } else {
        assert(buf@ =~= old(buf)@ + be(n as nat, k as nat));
    }
}

fn put_head(buf: &mut Vec<u8>, major: u8, n: u64)
    requires
        major < 8,
    ensures
        final(buf)@ == old(buf)@ + head(major as int, n),
{
    if n < 24 {
        buf.push(major * 32 + n as u8);
    } else if n < 0x100 {
        buf.push(major * 32 + 24);
        put_be(buf, n, 1);
    } else if n < 0x1_0000 {
        buf.push(major * 32 + 25);
        put_be(buf, n, 2);
    } else if n < 0x1_0000_0000 {
        buf.push(major * 32 + 26);
        put_be(buf, n, 4);
    } else {
        buf.push(major * 32 + 27);
        put_be(buf, n, 8);
    }
    assert(buf@ =~= old(buf)@ + head(major as int, n));
}

/// A writer that collects items.
pub struct Encoder {
    buf: Vec<u8>,
    written: Ghost<Seq<Tok>>,
}

impl Encoder {
    /// What every writer keeps: its buffer is the encoding of what was written.
    pub closed spec fn wf(&self) -> bool {
        self.buf@ == enc(self.written@) && all_encodable(self.written@)
    }

    /// The items written so far.
    pub closed spec fn toks(&self) -> Seq<Tok> {
        self.written@
    }

    /// A writer with nothing in it.
    pub fn new() -> (e: Encoder)
        ensures
            e.wf(),
            e.toks() == Seq::<Tok>::empty(),
    {
        proof {
            reveal(enc);
        }
        Encoder { buf: Vec::new(), written: Ghost(Seq::empty()) }
    }

    /// Writes an array head.
    pub fn array(&mut self, n: u64)
        requires
            old(self).wf(),
        ensures
            final(self).wf(),
            final(self).toks() == old(self).toks().push(Tok::Array(n)),
    {
        let ghost t = Tok::Array(n);
        proof {
            reveal(enc);
        }
        put_head(&mut self.buf, 4, n);
        self.written = Ghost(self.written@.push(t));
        assert(self.written@.drop_last() =~= old(self).written@);
    }

    /// Writes an unsigned integer.
    pub fn uint(&mut self, n: u64)
        requires
            old(self).wf(),
        ensures
            final(self).wf(),
            final(self).toks() == old(self).toks().push(Tok::Uint(n)),
    {
        let ghost t = Tok::Uint(n);
        proof {
            reveal(enc);
        }
        put_head(&mut self.buf, 0, n);
        self.written = Ghost(self.written@.push(t));
        assert(self.written@.drop_last() =~= old(self).written@);
    }

    /// Writes a byte string.
    pub fn bytes(&mut self, s: &[u8])
        requires
            old(self).wf(),
        ensures
            final(self).wf(),
            final(self).toks() == old(self).toks().push(Tok::Bytes(s@)),
    {
        let ghost t = Tok::Bytes(s@);
        proof {
            reveal(enc);
        }
        put_head(&mut self.buf, 2, s.len() as u64);
        self.buf.extend_from_slice(s);
        self.written = Ghost(self.written@.push(t));
        assert(self.written@.drop_last() =~= old(self).written@);
        assert(self.buf@ =~= old(self).buf@ + enc_tok(t));
    }

    /// Writes a text string.
    pub fn text(&mut self, s: &str)
        requires
            old(self).wf(),
        ensures
            final(self).wf(),
            final(self).toks() == old(self).toks().push(Tok::Text(s@)),
    {
        let ghost t = Tok::Text(s@);
        proof {
            reveal(enc);
        }
        let body: &[u8] = s.as_bytes();
        put_head(&mut self.buf, 3, body.len() as u64);
        self.buf.extend_from_slice(body);
        self.written = Ghost(self.written@.push(t));
        assert(self.written@.drop_last() =~= old(self).written@);
        assert(self.buf@ =~= old(self).buf@ + enc_tok(t));
    }

    /// Writes a digest.
    pub fn digest(&mut self, d: &Digest32)
        requires
            old(self).wf(),
        ensures
            final(self).wf(),
            final(self).toks() == old(self).toks().push(Tok::Bytes(d@)),
    {
        self.bytes(d.as_slice());
    }

    /// Writes a digest, or an empty byte string where there is none.
    pub fn opt_digest(&mut self, d: &Option<Digest32>)
        requires
            old(self).wf(),
        ensures
            final(self).wf(),
            final(self).toks() == old(self).toks().push(Tok::Bytes(opt_bytes(*d))),
    {
        match d {
            Some(d) => {
                self.bytes(d.as_slice());
            },
            None => {
                let none: Vec<u8> = Vec::new();
                self.bytes(none.as_slice());
            },
        }
    }

    /// Writes a flag.
    pub fn flag(&mut self, b: bool)
        requires
            old(self).wf(),
        ensures
            final(self).wf(),
            final(self).toks() == old(self).toks().push(Tok::Uint(flag_value(b))),
    {
        if b {
            self.uint(1);
        } else {
            self.uint(0);
        }
    }

    /// The encoding of everything written.
    pub fn finish(self) -> (b: Vec<u8>)
        requires
            self.wf(),
        ensures
            b@ == enc(self.toks()),
            all_encodable(self.toks()),
    {
        self.buf
    }
}

/// Every number and every array head can be written, and every byte string and text whose
/// length in bytes is a number.
pub proof fn law_encodable_exactly(n: u64, b: Seq<u8>, t: Seq<char>)
    ensures
        encodable(Tok::Uint(n)),
        encodable(Tok::Array(n)),
        encodable(Tok::Bytes(b)) <==> b.len() <= u64::MAX,
        encodable(Tok::Text(t)) <==> vstd::utf8::encode_utf8(t).len() <= u64::MAX,
{
}

} // verus!
