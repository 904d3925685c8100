//! Deterministic addressing: the storage key for a record is derived from
//! its handle together with its owner identity, so the same pair always
//! resolves to the same location and distinct pairs never collide.

use vstd::prelude::*;

use crate::identity::Identity;

verus! {

/// A storage address: the (owner, handle) pair itself, the canonical
/// injective encoding of a record's identity.
#[derive(Debug, PartialEq)]
pub struct Address {
    pub owner: Identity,
    pub username: String,
}

/// The mathematical image of an [`Address`].
#[verifier::ext_equal]
pub ghost struct AddressModel {
    pub owner: Seq<u8>,
    pub username: Seq<char>,
}

impl View for Address {
    type V = AddressModel;

    open spec fn view(&self) -> AddressModel {
        AddressModel { owner: self.owner@, username: self.username@ }
    }
}

/// The address derived for the handle `username` and owner `owner`.
pub open spec fn spec_derive(username: Seq<char>, owner: Seq<u8>) -> AddressModel {
    AddressModel { owner, username }
}

/// Derives the storage address for `(username, owner)`: a pure function
/// with no side effects.
pub fn derive(username: &String, owner: &Identity) -> (r: Address)
    ensures
        r@ == spec_derive(username@, owner@),
{
    Address { owner: *owner, username: username.clone() }
}

/// Derivation is deterministic and repeatable: identical inputs always
/// yield identical addresses.
pub proof fn lemma_derive_deterministic(
    u1: Seq<char>,
    o1: Seq<u8>,
    u2: Seq<char>,
    o2: Seq<u8>,
)
    requires
        u1 == u2,
        o1 == o2,
    ensures
        spec_derive(u1, o1) == spec_derive(u2, o2),
{
}

/// Derivation is injective: two pairs that derive the same address are the
/// same pair, so records of different owners — or under different handles —
/// never share a location.
pub proof fn lemma_derive_injective(u1: Seq<char>, o1: Seq<u8>, u2: Seq<char>, o2: Seq<u8>)
    requires
        spec_derive(u1, o1) == spec_derive(u2, o2),
    ensures
        u1 == u2,
        o1 == o2,
{
}

} // verus!
