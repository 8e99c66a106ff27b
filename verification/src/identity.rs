//! Identity keys, as far as the rules of this library read them.

use vstd::prelude::*;

use crate::hash::{same_bytes, Digest32, COMPOSITE_PUB_LEN};

verus! {

/// A composite public key: its bytes, and the fingerprint that names its holder.
#[derive(Debug, PartialEq, Eq)]
pub struct CompositePublicKey {
    /// The encoded key.
    pub bytes: Vec<u8>,
    /// The fingerprint of the key.
    pub fingerprint: Digest32,
}

impl CompositePublicKey {
    /// What every key keeps: its encoding has the one length that keys have.
    pub open spec fn wf(&self) -> bool {
        self.bytes@.len() == COMPOSITE_PUB_LEN
    }

    /// Whether both are one key.
    pub open spec fn is_same(&self, other: &CompositePublicKey) -> bool {
        self.bytes@ == other.bytes@ && self.fingerprint == other.fingerprint
    }

    /// The fingerprint that names the holder of the key.
    pub fn fingerprint(&self) -> (d: Digest32)
        ensures
            d == self.fingerprint,
    {
        self.fingerprint
    }

    /// Whether both encode to the same bytes.
    pub fn same_key(&self, other: &CompositePublicKey) -> (r: bool)
        ensures
            r == (self.bytes@ == other.bytes@),
    {
        same_bytes(self.bytes.as_slice(), other.bytes.as_slice())
    }
}

impl Clone for CompositePublicKey {
    fn clone(&self) -> (r: CompositePublicKey)
        ensures
            r.is_same(self),
    {
        CompositePublicKey {
            bytes: vstd::slice::slice_to_vec(self.bytes.as_slice()),
            fingerprint: self.fingerprint,
        }
    }
}

} // verus!
