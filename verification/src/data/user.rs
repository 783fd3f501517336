//! The user record kept by the directory.

use vstd::prelude::*;

verus! {

/// The mathematical value of a [`User`].
#[verifier::ext_equal]
pub ghost struct UserV {
    pub username: Seq<char>,
    pub contacts: Seq<u64>,
    pub shared_contacts: Seq<u64>,
}

/// One account.  `contacts` holds the ids of the contacts this user owns,
/// in creation order; `shared_contacts` holds the ids of contacts owned by
/// others that were shared with this user, in grant order.
pub struct User {
    pub username: String,
    pub contacts: Vec<u64>,
    pub shared_contacts: Vec<u64>,
}

impl View for User {
    type V = UserV;

    open spec fn view(&self) -> UserV {
        UserV {
            username: self.username@,
            contacts: self.contacts@,
            shared_contacts: self.shared_contacts@,
        }
    }
}

} // verus!
