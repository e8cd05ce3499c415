//! Caller identities.
//!
//! The hosting platform authenticates every call with an opaque principal.
//! Inside the ledger an identity is just the principal's raw bytes: the only
//! things the ledger ever does with one are compare it for equality and store
//! it, so the byte sequence is the whole model.

use vstd::prelude::*;

verus! {

/// An opaque caller identity: the raw bytes of the host principal.
pub struct Identity {
    pub bytes: Vec<u8>,
}

impl View for Identity {
    type V = Seq<u8>;

    open spec fn view(&self) -> Seq<u8> {
        self.bytes@
    }
}

impl Identity {
    /// Wraps the raw principal bytes handed in from the host boundary.
    pub fn from_bytes(bytes: Vec<u8>) -> (id: Identity)
        ensures
            id@ == bytes@,
    {
        Identity { bytes }
    }

    /// Equality of identities: the byte sequences coincide.
    pub fn same(&self, other: &Identity) -> (b: bool)
        ensures
            b <==> self@ == other@,
    {
        let b = self.bytes == other.bytes;
        proof {
            if b {
                assert(self.bytes@ =~= other.bytes@);
            }
        }
        b
    }
}

impl Clone for Identity {
    fn clone(&self) -> (r: Self)
        ensures
            r@ == self@,
    {
        let mut bytes: Vec<u8> = Vec::new();
        let mut i: usize = 0;
        while i < self.bytes.len()
            invariant
                i <= self.bytes.len(),
                bytes@ == self.bytes@.subrange(0, i as int),
            decreases self.bytes.len() - i,
        {
            bytes.push(self.bytes[i]);
            i = i + 1;
            proof {
                assert(bytes@ =~= self.bytes@.subrange(0, i as int));
            }
        }
        proof {
            assert(bytes@ =~= self.bytes@);
        }
        Identity { bytes }
    }
}

} // verus!
