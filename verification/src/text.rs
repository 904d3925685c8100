//! Character-count validation for the string fields a record carries.

use vstd::prelude::*;
use vstd::std_specs::iter::IteratorSpec;

verus! {

/// Decides whether `s` holds at most `limit` characters, walking the
/// characters and stopping as soon as the limit is passed.
pub fn fits_within(s: &str, limit: usize) -> (r: bool)
    requires
        limit < usize::MAX,
    ensures
        r == (s@.len() <= limit),
{
    let mut it = s.chars();
    let mut count: usize = 0;
    loop
        invariant
            limit < usize::MAX,
            count <= limit,
            count <= s@.len(),
            it.obeys_prophetic_iter_laws(),
            it.remaining() =~= s@.skip(count as int),
        decreases s@.len() - count,
    {
        match it.next() {
            Some(_) => {
                assert(s@.skip(count as int).drop_first() =~= s@.skip(count as int + 1));
                count = count + 1;
                if count > limit {
                    return false;
                }
            },
            None => {
                assert(s@.len() == count);
                return true;
            },
        }
    }
}

} // verus!
