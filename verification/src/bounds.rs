//! The design constants: field bounds, the link capacity, and the storage
//! footprint a record of a given link count requires.

use vstd::prelude::*;

verus! {

/// Longest handle (username) a record may carry, in characters.
pub const MAX_USERNAME_CHARS: usize = 20;

/// Longest title a link may carry, in characters.
pub const MAX_TITLE_CHARS: usize = 50;

/// Longest url a link may carry, in characters.
pub const MAX_URL_CHARS: usize = 200;

/// Capacity bound: a record never holds more links than this.
pub const MAX_LINKS: usize = 10;

/// Bytes one stored link accounts for: an 8-byte identifier, the title and
/// url each with a 4-byte length prefix, and one byte for the active flag.
pub const LINK_FOOTPRINT: usize = 8 + (4 + MAX_TITLE_CHARS) + (4 + MAX_URL_CHARS) + 1;

/// Bytes a record accounts for besides its links: an 8-byte header tag, a
/// 32-byte owner identity, the username with a 4-byte length prefix, a
/// 4-byte link-list length prefix, and the 8-byte link counter.
pub const BASE_FOOTPRINT: usize = 8 + 32 + (4 + MAX_USERNAME_CHARS) + 4 + 8;

/// Largest footprint any record can require: the base plus a full link list.
pub const MAX_FOOTPRINT: usize = BASE_FOOTPRINT + MAX_LINKS * LINK_FOOTPRINT;

/// The storage footprint required for a record holding `entry_count` links.
pub open spec fn spec_required_footprint(entry_count: nat) -> nat {
    (BASE_FOOTPRINT + entry_count * LINK_FOOTPRINT) as nat
}

/// Computes the exact storage footprint for a record of `entry_count` links.
pub fn required_footprint(entry_count: usize) -> (r: usize)
    requires
        entry_count <= MAX_LINKS,
    ensures
        r == spec_required_footprint(entry_count as nat),
        r <= MAX_FOOTPRINT,
{
    proof {
        lemma_footprint_monotonic(entry_count as nat, MAX_LINKS as nat);
    }
    BASE_FOOTPRINT + entry_count * LINK_FOOTPRINT
}

/// The required footprint grows with the link count: storage for a larger
/// record never costs less.
pub proof fn lemma_footprint_monotonic(m: nat, n: nat)
    requires
        m <= n,
    ensures
        spec_required_footprint(m) <= spec_required_footprint(n),
{
    assert(m * LINK_FOOTPRINT <= n * LINK_FOOTPRINT) by (nonlinear_arith)
        requires
            m <= n,
    ;
}

} // verus!
