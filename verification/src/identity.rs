//! The owner identity: a 32-byte public-key-equivalent token. The library
//! never inspects its structure; it only compares identities for equality.

use vstd::prelude::*;

verus! {

/// Number of bytes in an identity token.
pub const IDENTITY_BYTES: usize = 32;

/// A caller or owner identity, already verified by the host's
/// authentication machinery before it reaches this library.
#[derive(Clone, Copy, Debug, PartialEq, Eq, Hash)]
pub struct Identity {
    pub bytes: [u8; 32],
}

impl View for Identity {
    type V = Seq<u8>;

    open spec fn view(&self) -> Seq<u8> {
        self.bytes@
    }
}

impl Identity {
    /// Wraps a raw 32-byte token.
    pub fn new(bytes: [u8; 32]) -> (r: Identity)
        ensures
            r@ == bytes@,
    {
        Identity { bytes }
    }
}

/// Compares two identities byte for byte.
pub fn identity_eq(a: &Identity, b: &Identity) -> (r: bool)
    ensures
        r == (a@ == b@),
{
    let mut i: usize = 0;
    while i < IDENTITY_BYTES
        invariant
            i <= IDENTITY_BYTES,
            forall|j: int| 0 <= j < i ==> a@[j] == b@[j],
        decreases IDENTITY_BYTES - i,
    {
        if a.bytes[i] != b.bytes[i] {
            assert(a@[i as int] != b@[i as int]);
            return false;
        }
        i = i + 1;
    }
    assert(a@ =~= b@);
    true
}

} // verus!
