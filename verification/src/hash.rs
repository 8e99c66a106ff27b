//! Digests: identity fingerprints, channel identifiers and entry hashes.

use sha2::Digest;
use vstd::prelude::*;

verus! {

/// A 32-byte digest.
pub type Digest32 = [u8; 32];

/// How many bytes a composite public key takes: an Ed25519 key and an ML-DSA-65 key.
pub const COMPOSITE_PUB_LEN: usize = 1984;

/// How many bytes a composite signature takes: an Ed25519 and an ML-DSA-65 signature.
pub const COMPOSITE_SIG_LEN: usize = 3373;

/// The digest that stands where there is no predecessor.
pub open spec fn zero_digest() -> Seq<u8> {
    Seq::new(32, |i: int| 0u8)
}

/// `b` as a digest, or `None` where it is not 32 bytes long.
pub fn digest_of(b: &[u8]) -> (r: Option<Digest32>)
    ensures
        r is Some <==> b@.len() == 32,
        r matches Some(d) ==> d@ == b@,
{
    if b.len() != 32 {
        return None;
    }
    let mut d: [u8; 32] = [0u8; 32];
    let mut i: usize = 0;
    while i < 32
        invariant
            i <= 32,
            b@.len() == 32,
            forall|j: int| 0 <= j < i ==> d@[j] == b@[j],
        decreases 32 - i,
    {
        d[i] = b[i];
        i = i + 1;
    }
    assert(d@ =~= b@);
    Some(d)
}

/// Whether two byte strings are equal.
pub fn same_bytes(a: &[u8], b: &[u8]) -> (r: bool)
    ensures
        r == (a@ == b@),
{
    if a.len() != b.len() {
        return false;
    }
    let mut i: usize = 0;
    while i < a.len()
        invariant
            i <= a@.len(),
            a@.len() == b@.len(),
            forall|j: int| 0 <= j < i ==> a@[j] == b@[j],
        decreases a@.len() - i,
    {
        if a[i] != b[i] {
            assert(a@[i as int] != b@[i as int]);
            return false;
        }
        i = i + 1;
    }
    assert(a@ =~= b@);
    true
}

/// Whether two digests are equal.
pub fn same_digest(a: &Digest32, b: &Digest32) -> (r: bool)
    ensures
        r == (a == b),
        r == (a@ == b@),
{
    let r: bool = same_bytes(a.as_slice(), b.as_slice());
    proof {
        if a@ == b@ {
            assert(*a =~= *b) by {
                assert forall|i: int| 0 <= i < 32 implies a[i] == b[i] by {
                    assert(a@[i] == b@[i]);
                }
            }
        }
    }
    r
}

/// Two digests with the same bytes are the same digest.
pub proof fn lemma_digest_ext(a: Digest32, b: Digest32)
    ensures
        (a@ == b@) == (a == b),
{
    if a@ == b@ {
        assert(a =~= b) by {
            assert forall|i: int| 0 <= i < 32 implies a[i] == b[i] by {
                assert(a@[i] == b@[i]);
            }
        }
    }
}

/// Byte-wise lexicographic order: the order in which a canonical segment lists
/// its rows.
pub open spec fn bytes_before(a: Seq<u8>, b: Seq<u8>) -> bool
    decreases a.len(),
{
    if b.len() == 0 {
        false
    } else if a.len() == 0 {
        true
    } else if a[0] != b[0] {
        a[0] < b[0]
    } else {
        bytes_before(a.drop_first(), b.drop_first())
    }
}

/// The order is irreflexive, total and transitive.
pub proof fn lemma_bytes_order(a: Seq<u8>, b: Seq<u8>, c: Seq<u8>)
    ensures
        !bytes_before(a, a),
        !(bytes_before(a, b) && bytes_before(b, a)),
        bytes_before(a, b) || a == b || bytes_before(b, a),
        bytes_before(a, b) && bytes_before(b, c) ==> bytes_before(a, c),
    decreases a.len() + b.len() + c.len(),
{
    if a.len() == 0 && b.len() == 0 {
        assert(a =~= b);
    } else if a.len() > 0 && b.len() > 0 {
        if c.len() > 0 {
            lemma_bytes_order(a.drop_first(), b.drop_first(), c.drop_first());
        } else {
            lemma_bytes_order(a.drop_first(), b.drop_first(), c);
        }
        if a[0] == b[0] && a.drop_first() == b.drop_first() {
            assert(a =~= seq![a[0]] + a.drop_first());
            assert(b =~= seq![b[0]] + b.drop_first());
        }
    } else if a.len() > 0 {
        lemma_bytes_order(a.drop_first(), b, c);
    }
}

/// Whether `a` stands before `b` in byte-wise lexicographic order.
pub fn is_before(a: &[u8], b: &[u8]) -> (r: bool)
    ensures
        r == bytes_before(a@, b@),
{
    let mut i: usize = 0;
    assert(a@.skip(0) =~= a@);
    assert(b@.skip(0) =~= b@);
    while i < a.len() && i < b.len()
        invariant
            i <= a@.len(),
            i <= b@.len(),
            bytes_before(a@, b@) == bytes_before(a@.skip(i as int), b@.skip(i as int)),
        decreases a@.len() - i,
    {
        if a[i] != b[i] {
            return a[i] < b[i];
        }
        assert(a@.skip(i as int).drop_first() =~= a@.skip(i + 1));
        assert(b@.skip(i as int).drop_first() =~= b@.skip(i + 1));
        i = i + 1;
    }
    i < b.len()
}

/// What SHA-256 gives for a byte string.
pub uninterp spec fn sha256_of(b: Seq<u8>) -> Seq<u8>;

/// `sha2::Sha256::digest`: the SHA-256 of `b`, a function of its bytes alone.
#[verifier::external_body]
pub(crate) fn sha256(b: &[u8]) -> (d: Digest32)
    ensures
        d@ == sha256_of(b@),
{
    sha2::Sha256::digest(b).into()
}

/// What decides between two byte strings is the first byte in which they differ; a string
/// stands before every longer one that begins with it.
pub proof fn law_first_difference_decides(a: Seq<u8>, b: Seq<u8>, n: int)
    requires
        0 <= n <= a.len(),
        0 <= n <= b.len(),
        forall|i: int| 0 <= i < n ==> #[trigger] a[i] == b[i],
    ensures
        n < a.len() && n < b.len() && a[n] != b[n] ==> (bytes_before(a, b) <==> a[n] < b[n]),
        n == a.len() ==> (bytes_before(a, b) <==> n < b.len()),
    decreases n,
{
    if n > 0 {
        assert(a[0] == b[0]);
        let x = a.drop_first();
        let y = b.drop_first();
        assert forall|i: int| 0 <= i < n - 1 implies #[trigger] x[i] == y[i] by {
            assert(a[i + 1] == b[i + 1]);
        }
        law_first_difference_decides(x, y, n - 1);
    }
}

} // verus!
