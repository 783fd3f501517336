//! Access control over contact ids.
//!
//! Pure decisions, no state: a caller may read a contact it owns or one
//! shared with it, and may mutate only a contact it owns.  Shared
//! recipients get read-only access.

use vstd::prelude::*;

use crate::id_list::contains_id;

verus! {

/// Whether a caller with owned list `owned` and shared list `shared` may
/// read the contact `contact_id`.
pub fn can_read(contact_id: u64, owned: &Vec<u64>, shared: &Vec<u64>) -> (r: bool)
    ensures
        r == (owned@.contains(contact_id) || shared@.contains(contact_id)),
{
    contains_id(owned, contact_id) || contains_id(shared, contact_id)
}

/// Whether a caller with owned list `owned` may edit, delete, share or
/// revoke the contact `contact_id`: only the owner may.
pub fn can_mutate(contact_id: u64, owned: &Vec<u64>) -> (r: bool)
    ensures
        r == owned@.contains(contact_id),
{
    contains_id(owned, contact_id)
}

} // verus!
