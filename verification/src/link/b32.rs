//! Lowercase unpadded base32 of a 32-byte digest: how a room, a member or an entry is
//! written where people read it.

use vstd::prelude::*;
use vstd::string::*;
use vstd::utf8::*;

use crate::error::Error;
use crate::hash::Digest32;

verus! {

/// Characters in the base32 rendering of a 32-byte digest.
pub const B32_DIGEST_LEN: usize = 52;

/// The base32 alphabet, lowercased.
pub const B32: &'static str = "abcdefghijklmnopqrstuvwxyz234567";

/// Two to the power of `n`, for the bits of a byte.
pub open spec fn weight(n: int) -> int {
    if n <= 0 {
        1
    } else if n == 1 {
        2
    } else if n == 2 {
        4
    } else if n == 3 {
        8
    } else if n == 4 {
        16
    } else if n == 5 {
        32
    } else if n == 6 {
        64
    } else {
        128
    }
}

/// Bit `k` of a byte string, most significant first; 0 past its end.
pub open spec fn bit(d: Seq<u8>, k: int) -> int {
    if 0 <= k < 8 * d.len() {
        (d[k / 8] as int / weight(7 - k % 8)) % 2
    } else {
        0
    }
}

/// The value of the `j`th group of five bits.
pub open spec fn group(d: Seq<u8>, j: int) -> int {
    16 * bit(d, 5 * j) + 8 * bit(d, 5 * j + 1) + 4 * bit(d, 5 * j + 2) + 2 * bit(d, 5 * j + 3)
        + bit(d, 5 * j + 4)
}

/// The character for a group of five bits.
pub open spec fn digit_char(v: int) -> char {
    if v < 26 {
        (97 + v) as char
    } else {
        (24 + v) as char
    }
}

/// The value of a character, in either case.
pub open spec fn digit_value(c: char) -> Option<int> {
    if 'a' <= c <= 'z' {
        Some(c as int - 97)
    } else if 'A' <= c <= 'Z' {
        Some(c as int - 65)
    } else if '2' <= c <= '7' {
        Some(c as int - 24)
    } else {
        None
    }
}

/// The base32 rendering of a digest.
pub open spec fn b32_of(d: Seq<u8>) -> Seq<char> {
    Seq::new(B32_DIGEST_LEN as nat, |j: int| digit_char(group(d, j)))
}

/// Bit `k` of what a base32 text spells.
pub open spec fn text_bit(t: Seq<char>, k: int) -> int {
    (digit_value(t[k / 5])->Some_0 / weight(4 - k % 5)) % 2
}

/// Byte `i` of what a base32 text spells.
#[verifier::opaque]
pub open spec fn text_byte(t: Seq<char>, i: int) -> int {
    128 * text_bit(t, 8 * i) + 64 * text_bit(t, 8 * i + 1) + 32 * text_bit(t, 8 * i + 2) + 16
        * text_bit(t, 8 * i + 3) + 8 * text_bit(t, 8 * i + 4) + 4 * text_bit(t, 8 * i + 5) + 2
        * text_bit(t, 8 * i + 6) + text_bit(t, 8 * i + 7)
}

/// Whether a text is the base32 rendering of a digest, in any mix of cases: as many
/// characters as one has, all of the alphabet, and the four bits left over are zero.
pub open spec fn is_b32(t: Seq<char>) -> bool {
    &&& t.len() == B32_DIGEST_LEN
    &&& forall|j: int| 0 <= j < t.len() ==> digit_value(#[trigger] t[j]) is Some
    &&& digit_value(t[51])->Some_0 % 16 == 0
}

/// The digest that a base32 text spells.
pub open spec fn digest_of_b32(t: Seq<char>) -> Seq<u8> {
    Seq::new(32, |i: int| text_byte(t, i) as u8)
}

fn weight_of(n: u8) -> (w: u8)
    requires
        n <= 7,
    ensures
        w == weight(n as int),
{
    if n == 0 {
        1
    } else if n == 1 {
        2
    } else if n == 2 {
        4
    } else if n == 3 {
        8
    } else if n == 4 {
        16
    } else if n == 5 {
        32
    } else if n == 6 {
        64
    } else {
        128
    }
}

fn bit_of(d: &Digest32, k: usize) -> (b: u8)
    requires
        k < 260,
    ensures
        b == bit(d@, k as int),
        b <= 1,
{
    if k < 256 {
        let w: u8 = weight_of((7 - k % 8) as u8);
        (d[k / 8] / w) % 2
    } else {
        0
    }
}

/// Renders a digest in base32.
#[must_use]
pub fn b32_encode(bytes: &Digest32) -> (out: String)
    ensures
        out@ == b32_of(bytes@),
{
    let mut out: String = String::new();
    let mut j: usize = 0;
    while j < B32_DIGEST_LEN
        invariant
            j <= B32_DIGEST_LEN,
            out@ == b32_of(bytes@).take(j as int),
        decreases B32_DIGEST_LEN - j,
    {
        let v: u8 = 16 * bit_of(bytes, 5 * j) + 8 * bit_of(bytes, 5 * j + 1) + 4 * bit_of(
            bytes,
            5 * j + 2,
        ) + 2 * bit_of(bytes, 5 * j + 3) + bit_of(bytes, 5 * j + 4);
        proof {
            reveal_strlit("abcdefghijklmnopqrstuvwxyz234567");
        }
        let at: usize = v as usize;
        out.append(B32.substring_char(at, at + 1));
        proof {
            lemma_alphabet(v as int);
            assert(b32_of(bytes@).take(j + 1) =~= b32_of(bytes@).take(j as int).push(
                digit_char(group(bytes@, j as int)),
            ));
            assert(out@ =~= b32_of(bytes@).take(j + 1));
        }
        j = j + 1;
    }
    assert(b32_of(bytes@).take(j as int) =~= b32_of(bytes@));
    out
}

proof fn lemma_alphabet(v: int)
    requires
        0 <= v < 32,
    ensures
        B32@.len() == 32,
        B32@[v] == digit_char(v),
{
    reveal_strlit("abcdefghijklmnopqrstuvwxyz234567");
}

fn value_of(c: char) -> (r: Option<u8>)
    ensures
        match r {
            Some(v) => v < 32 && digit_value(c) == Some(v as int),
            None => digit_value(c) is None,
        },
{
    if 'a' <= c && c <= 'z' {
        Some((c as u32 - 97) as u8)
    } else if 'A' <= c && c <= 'Z' {
        Some((c as u32 - 65) as u8)
    } else if '2' <= c && c <= '7' {
        Some((c as u32 - 24) as u8)
    } else {
        None
    }
}

fn text_bit_of(values: &Vec<u8>, k: usize) -> (b: u8)
    requires
        values@.len() == B32_DIGEST_LEN,
        k < 260,
    ensures
        b == (values@[k as int / 5] as int / weight(4 - k as int % 5)) % 2,
        b <= 1,
{
    let w: u8 = weight_of((4 - k % 5) as u8);
    (values[k / 5] / w) % 2
}

/// Reads a digest that [`b32_encode`] rendered, in any mix of cases; `ctx` names the
/// field for the error.
pub fn b32_decode(text: &str, ctx: &'static str) -> (r: Result<Digest32, Error>)
    ensures
        match r {
            Ok(d) => is_b32(text@) && d@ == digest_of_b32(text@),
            Err(e) => !is_b32(text@) && e == Error::MalformedLink(ctx),
        },
{
    if text.unicode_len() != B32_DIGEST_LEN {
        return Err(Error::MalformedLink(ctx));
    }
    let mut values: Vec<u8> = Vec::new();
    let mut j: usize = 0;
    while j < B32_DIGEST_LEN
        invariant
            j <= B32_DIGEST_LEN,
            text@.len() == B32_DIGEST_LEN,
            values@.len() == j,
            forall|i: int|
                0 <= i < j ==> digit_value(#[trigger] text@[i]) == Some(values@[i] as int),
        decreases B32_DIGEST_LEN - j,
    {
        match value_of(text.get_char(j)) {
            Some(v) => {
                values.push(v);
            },
            None => {
                assert(digit_value(text@[j as int]) is None);
                return Err(Error::MalformedLink(ctx));
            },
        }
        j = j + 1;
    }
    assert(digit_value(text@[51]) == Some(values@[51] as int));
    if values[51] % 16 != 0 {
        return Err(Error::MalformedLink(ctx));
    }
    let mut out: Digest32 = [0u8; 32];
    let mut i: usize = 0;
    while i < 32
        invariant
            i <= 32,
            text@.len() == B32_DIGEST_LEN,
            values@.len() == B32_DIGEST_LEN,
            forall|j: int|
                0 <= j < B32_DIGEST_LEN ==> digit_value(#[trigger] text@[j]) == Some(
                    values@[j] as int,
                ),
            out@.len() == 32,
            forall|n: int| 0 <= n < i ==> #[trigger] out@[n] == text_byte(text@, n) as u8,
        decreases 32 - i,
    {
        let k: usize = 8 * i;
        let b0: u8 = text_bit_of(&values, k);
        let b1: u8 = text_bit_of(&values, k + 1);
        let b2: u8 = text_bit_of(&values, k + 2);
        let b3: u8 = text_bit_of(&values, k + 3);
        let b4: u8 = text_bit_of(&values, k + 4);
        let b5: u8 = text_bit_of(&values, k + 5);
        let b6: u8 = text_bit_of(&values, k + 6);
        let b7: u8 = text_bit_of(&values, k + 7);
        let v: u8 = 128 * b0 + 64 * b1 + 32 * b2 + 16 * b3 + 8 * b4 + 4 * b5 + 2 * b6 + b7;
        proof {
            assert(text_bit(text@, k as int) == b0);
            assert(text_bit(text@, k + 1) == b1);
            assert(text_bit(text@, k + 2) == b2);
            assert(text_bit(text@, k + 3) == b3);
            assert(text_bit(text@, k + 4) == b4);
            assert(text_bit(text@, k + 5) == b5);
            assert(text_bit(text@, k + 6) == b6);
            assert(text_bit(text@, k + 7) == b7);
            reveal(text_byte);
            assert(v == text_byte(text@, i as int));
        }
        out[i] = v;
        i = i + 1;
    }
    assert(out@ =~= digest_of_b32(text@));
    Ok(out)
}

// ---- laws --------------------------------------------------------------------

proof fn lemma_bit_range(d: Seq<u8>, k: int)
    ensures
        0 <= bit(d, k) <= 1,
{
}

proof fn lemma_group(d: Seq<u8>, j: int)
    requires
        0 <= j,
    ensures
        0 <= group(d, j) < 32,
        digit_value(digit_char(group(d, j))) == Some(group(d, j)),
{
    lemma_bit_range(d, 5 * j);
    lemma_bit_range(d, 5 * j + 1);
    lemma_bit_range(d, 5 * j + 2);
    lemma_bit_range(d, 5 * j + 3);
    lemma_bit_range(d, 5 * j + 4);
}

/// Five bits can be read off their number.
proof fn lemma_five(a: int, b: int, c: int, e: int, f: int)
    requires
        0 <= a <= 1,
        0 <= b <= 1,
        0 <= c <= 1,
        0 <= e <= 1,
        0 <= f <= 1,
    ensures
        ({
            let v = 16 * a + 8 * b + 4 * c + 2 * e + f;
            &&& (v / 16) % 2 == a
            &&& (v / 8) % 2 == b
            &&& (v / 4) % 2 == c
            &&& (v / 2) % 2 == e
            &&& v % 2 == f
        }),
{
    let v = 16 * a + 8 * b + 4 * c + 2 * e + f;
    assert(v / 16 == a);
    assert(v / 8 == 2 * a + b);
    assert(v / 4 == 4 * a + 2 * b + c);
    assert(v / 2 == 8 * a + 4 * b + 2 * c + e);
}

/// Bit `n` of a group is the bit of the digest it stands for.
proof fn lemma_group_bit(d: Seq<u8>, j: int, n: int)
    requires
        0 <= j,
        0 <= n < 5,
    ensures
        (group(d, j) / weight(4 - n)) % 2 == bit(d, 5 * j + n),
{
    lemma_bit_range(d, 5 * j);
    lemma_bit_range(d, 5 * j + 1);
    lemma_bit_range(d, 5 * j + 2);
    lemma_bit_range(d, 5 * j + 3);
    lemma_bit_range(d, 5 * j + 4);
    let (a, b, c) = (bit(d, 5 * j), bit(d, 5 * j + 1), bit(d, 5 * j + 2));
    let (e, f) = (bit(d, 5 * j + 3), bit(d, 5 * j + 4));
    lemma_five(a, b, c, e, f);
    let v = 16 * a + 8 * b + 4 * c + 2 * e + f;
    assert(group(d, j) == v);
    if n == 0 {
        assert(weight(4 - n) == 16 && 5 * j + n == 5 * j);
    } else if n == 1 {
        assert(weight(4 - n) == 8);
    } else if n == 2 {
        assert(weight(4 - n) == 4);
    } else if n == 3 {
        assert(weight(4 - n) == 2);
    } else {
        assert(weight(4 - n) == 1);
    }
}

proof fn lemma_rendered_bit(d: Seq<u8>, k: int)
    requires
        0 <= k < 260,
    ensures
        text_bit(b32_of(d), k) == bit(d, k),
{
    lemma_group(d, k / 5);
    lemma_group_bit(d, k / 5, k % 5);
    assert(b32_of(d)[k / 5] == digit_char(group(d, k / 5)));
    assert(5 * (k / 5) + k % 5 == k);
}

/// A byte is the sum of its bits.
proof fn lemma_byte_bits(d: Seq<u8>, i: int)
    requires
        0 <= i < d.len(),
    ensures
        d[i] == 128 * bit(d, 8 * i) + 64 * bit(d, 8 * i + 1) + 32 * bit(d, 8 * i + 2) + 16 * bit(
            d,
            8 * i + 3,
        ) + 8 * bit(d, 8 * i + 4) + 4 * bit(d, 8 * i + 5) + 2 * bit(d, 8 * i + 6) + bit(
            d,
            8 * i + 7,
        ),
{
    let b = d[i];
    assert(b == 128 * ((b / 128) % 2) + 64 * ((b / 64) % 2) + 32 * ((b / 32) % 2) + 16 * ((b / 16)
        % 2) + 8 * ((b / 8) % 2) + 4 * ((b / 4) % 2) + 2 * ((b / 2) % 2) + b % 2) by (bit_vector);
    lemma_bit_at(d, i, 0);
    lemma_bit_at(d, i, 1);
    lemma_bit_at(d, i, 2);
    lemma_bit_at(d, i, 3);
    lemma_bit_at(d, i, 4);
    lemma_bit_at(d, i, 5);
    lemma_bit_at(d, i, 6);
    lemma_bit_at(d, i, 7);
}

proof fn lemma_bit_at(d: Seq<u8>, i: int, n: int)
    requires
        0 <= i < d.len(),
        0 <= n < 8,
    ensures
        bit(d, 8 * i + n) == (d[i] as int / weight(7 - n)) % 2,
{
    let k = 8 * i + n;
    assert(k / 8 == i && k % 8 == n);
}

/// A rendered digest is read back as it was.
pub proof fn law_b32_read_back(d: Seq<u8>)
    requires
        d.len() == 32,
    ensures
        is_b32(b32_of(d)),
        digest_of_b32(b32_of(d)) == d,
{
    let t = b32_of(d);
    assert forall|j: int| 0 <= j < t.len() implies digit_value(#[trigger] t[j]) is Some by {
        lemma_group(d, j);
    }
    lemma_group(d, 51);
    assert(t[51] == digit_char(group(d, 51)));
    assert(group(d, 51) % 16 == 0) by {
        assert(bit(d, 256) == 0 && bit(d, 257) == 0 && bit(d, 258) == 0 && bit(d, 259) == 0);
        lemma_bit_range(d, 255);
    }
    assert forall|i: int| 0 <= i < 32 implies digest_of_b32(t)[i] == d[i] by {
        lemma_rendered_bit(d, 8 * i);
        lemma_rendered_bit(d, 8 * i + 1);
        lemma_rendered_bit(d, 8 * i + 2);
        lemma_rendered_bit(d, 8 * i + 3);
        lemma_rendered_bit(d, 8 * i + 4);
        lemma_rendered_bit(d, 8 * i + 5);
        lemma_rendered_bit(d, 8 * i + 6);
        lemma_rendered_bit(d, 8 * i + 7);
        lemma_byte_bits(d, i);
        reveal(text_byte);
    }
    assert(digest_of_b32(t) =~= d);
}

/// The lowercase form of a character of the alphabet.
pub open spec fn lower(c: char) -> char {
    if 'A' <= c <= 'Z' {
        (c as int + 32) as char
    } else {
        c
    }
}

proof fn lemma_text_byte_bit(t: Seq<char>, i: int, n: int)
    requires
        0 <= i < 32,
        0 <= n < 8,
    ensures
        0 <= text_byte(t, i) < 256,
        (text_byte(t, i) / weight(7 - n)) % 2 == text_bit(t, 8 * i + n),
{
    let b0 = text_bit(t, 8 * i) as u8;
    let b1 = text_bit(t, 8 * i + 1) as u8;
    let b2 = text_bit(t, 8 * i + 2) as u8;
    let b3 = text_bit(t, 8 * i + 3) as u8;
    let b4 = text_bit(t, 8 * i + 4) as u8;
    let b5 = text_bit(t, 8 * i + 5) as u8;
    let b6 = text_bit(t, 8 * i + 6) as u8;
    let b7 = text_bit(t, 8 * i + 7) as u8;
    let v = (128 * b0 + 64 * b1 + 32 * b2 + 16 * b3 + 8 * b4 + 4 * b5 + 2 * b6 + b7) as u8;
    assert(v == text_byte(t, i)) by {
        reveal(text_byte);
    }
    lemma_bits_of_sum(b0, b1, b2, b3, b4, b5, b6, b7);
}

proof fn lemma_bits_of_sum(b0: u8, b1: u8, b2: u8, b3: u8, b4: u8, b5: u8, b6: u8, b7: u8)
    by (bit_vector)
    requires
        b0 <= 1 && b1 <= 1 && b2 <= 1 && b3 <= 1 && b4 <= 1 && b5 <= 1 && b6 <= 1 && b7 <= 1,
    ensures
        ((128 * b0 + 64 * b1 + 32 * b2 + 16 * b3 + 8 * b4 + 4 * b5 + 2 * b6 + b7) as u8 / 128) % 2
            == b0,
        ((128 * b0 + 64 * b1 + 32 * b2 + 16 * b3 + 8 * b4 + 4 * b5 + 2 * b6 + b7) as u8 / 64) % 2
            == b1,
        ((128 * b0 + 64 * b1 + 32 * b2 + 16 * b3 + 8 * b4 + 4 * b5 + 2 * b6 + b7) as u8 / 32) % 2
            == b2,
        ((128 * b0 + 64 * b1 + 32 * b2 + 16 * b3 + 8 * b4 + 4 * b5 + 2 * b6 + b7) as u8 / 16) % 2
            == b3,
        ((128 * b0 + 64 * b1 + 32 * b2 + 16 * b3 + 8 * b4 + 4 * b5 + 2 * b6 + b7) as u8 / 8) % 2
            == b4,
        ((128 * b0 + 64 * b1 + 32 * b2 + 16 * b3 + 8 * b4 + 4 * b5 + 2 * b6 + b7) as u8 / 4) % 2
            == b5,
        ((128 * b0 + 64 * b1 + 32 * b2 + 16 * b3 + 8 * b4 + 4 * b5 + 2 * b6 + b7) as u8 / 2) % 2
            == b6,
        (128 * b0 + 64 * b1 + 32 * b2 + 16 * b3 + 8 * b4 + 4 * b5 + 2 * b6 + b7) as u8 % 2 == b7,
{
}

proof fn lemma_read_bit(t: Seq<char>, j: int, n: int)
    requires
        is_b32(t),
        0 <= j < 52,
        0 <= n < 5,
    ensures
        bit(digest_of_b32(t), 5 * j + n) == (digit_value(t[j])->Some_0 / weight(4 - n)) % 2,
{
    let k = 5 * j + n;
    assert(k / 5 == j && k % 5 == n);
    assert(digit_value(t[j]) is Some);
    if k < 256 {
        let d = digest_of_b32(t);
        lemma_text_byte_bit(t, k / 8, k % 8);
        assert(d[k / 8] == text_byte(t, k / 8));
        assert(8 * (k / 8) + k % 8 == k);
    } else {
        assert(j == 51 && n >= 1);
        let v = digit_value(t[51])->Some_0;
        assert(v == 0 || v == 16);
    }
}

proof fn lemma_value_bits(v: int)
    requires
        0 <= v < 32,
    ensures
        v == 16 * ((v / 16) % 2) + 8 * ((v / 8) % 2) + 4 * ((v / 4) % 2) + 2 * ((v / 2) % 2) + v
            % 2,
{
}

/// One digest has one rendering: a text that is read as `d` is the rendering of `d`, up
/// to case.
pub proof fn law_b32_is_canonical(t: Seq<char>)
    requires
        is_b32(t),
    ensures
        b32_of(digest_of_b32(t)) == t.map_values(|c: char| lower(c)),
{
    let d = digest_of_b32(t);
    let low = t.map_values(|c: char| lower(c));
    assert forall|j: int| 0 <= j < 52 implies b32_of(d)[j] == low[j] by {
        let v = digit_value(t[j])->Some_0;
        assert(digit_value(t[j]) is Some);
        assert(0 <= v < 32);
        lemma_read_bit(t, j, 0);
        lemma_read_bit(t, j, 1);
        lemma_read_bit(t, j, 2);
        lemma_read_bit(t, j, 3);
        lemma_read_bit(t, j, 4);
        lemma_value_bits(v);
        assert(group(d, j) == v);
    }
    assert(b32_of(d) =~= low);
}

} // verus!
