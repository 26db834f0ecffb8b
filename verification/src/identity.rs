//! Content-derived schema identity, built on an opaque collision-resistant
//! hash primitive.

use vstd::prelude::*;
use sha2::Digest;

verus! {

/// The digest of the hash primitive: a pure function of the input bytes, not
/// spelled out here, only named.
pub uninterp spec fn sha256_of(data: Seq<u8>) -> Seq<u8>;

/// Relies on sha2::Sha256 through Digest::digest: the SHA-256 digest is a
/// 32-byte value determined by the input bytes alone.
#[verifier::external_body]
pub(crate) fn sha256(data: &[u8]) -> (r: Vec<u8>)
    ensures
        r@ == sha256_of(data@),
        r@.len() == 32,
{
    sha2::Sha256::digest(data).to_vec()
}

/// Fixed-width content identity of a schema: the hash of its canonical
/// encoding, conventionally displayed as hex. Two schema values describe the
/// same interface exactly when their identities are equal.
#[derive(Clone, PartialEq, Eq, Debug)]
pub struct IfaceId {
    pub bytes: Vec<u8>,
}

impl IfaceId {
    /// An identity is a 32-byte value.
    pub open spec fn wf(self) -> bool {
        self.bytes@.len() == 32
    }

    /// Builds an identity from its raw bytes.
    pub fn from_array(a: [u8; 32]) -> (r: IfaceId)
        ensures
            r.bytes@ == a@,
            r.wf(),
    {
        let mut v: Vec<u8> = Vec::new();
        let mut i: usize = 0;
        while i < 32
            invariant
                0 <= i <= 32,
                v@.len() == i,
                a@.len() == 32,
                forall|j: int| 0 <= j < i ==> v@[j] == a@[j],
            decreases 32 - i,
        {
            v.push(a[i]);
            i = i + 1;
        }
        proof {
            assert(v@ =~= a@);
        }
        IfaceId { bytes: v }
    }

    /// Identity equality, byte for byte.
    pub fn eq_id(&self, other: &IfaceId) -> (r: bool)
        ensures
            r == (self.bytes@ == other.bytes@),
    {
        crate::ident::bytes_eq(self.bytes.as_slice(), other.bytes.as_slice())
    }
}

} // verus!
