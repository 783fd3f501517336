//! The payload of an account-creation request.

use vstd::prelude::*;

verus! {

/// The fields a caller supplies when creating an account.  The identity is
/// never part of the payload: it is resolved by the hosting layer.
pub struct NewUser {
    pub username: String,
}

} // verus!
