//! The payload of a contact-creation request.

use vstd::prelude::*;

verus! {

/// The fields a caller supplies when creating or editing a contact.  The
/// store itself assigns the contact id.
pub struct NewContact {
    pub name: String,
    pub email: String,
    pub phone: String,
}

} // verus!
