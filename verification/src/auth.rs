//! The authorization guard: every mutation is allowed only to the caller
//! who controls the record's owner identity.

use vstd::prelude::*;

use crate::account::LinkTreeAccount;
use crate::error::ErrorCode;
use crate::identity::Identity;
use crate::identity::identity_eq;

verus! {

/// Succeeds exactly when `caller` is the record's owner; any other caller is
/// turned away with [`ErrorCode::Unauthorized`] before a mutation can start.
pub fn authorize(account: &LinkTreeAccount, caller: &Identity) -> (r: Result<(), ErrorCode>)
    ensures
        r is Ok <==> account@.owner == caller@,
        r is Err ==> r == Err::<(), ErrorCode>(ErrorCode::Unauthorized),
{
    if identity_eq(&account.owner, caller) {
        Ok(())
    } else {
        Err(ErrorCode::Unauthorized)
    }
}

} // verus!
