//! A user record with its owned contacts carried inline.
//!
//! The directory itself keeps only contact ids inside accounts (see
//! [`crate::data::user::User`]); this type is the dereferenced shape, with
//! the owned records themselves in place of their ids.

use vstd::prelude::*;

use crate::contact::{Contact, ContactV};

verus! {

/// The mathematical value of a [`User`].
#[verifier::ext_equal]
pub ghost struct UserV {
    pub username: Seq<char>,
    pub contacts: Seq<ContactV>,
    pub shared_contacts: Seq<u64>,
}

/// An account together with the full records of the contacts it owns.
pub struct User {
    pub username: String,
    pub contacts: Vec<Contact>,
    pub shared_contacts: Vec<u64>,
}

impl View for User {
    type V = UserV;

    open spec fn view(&self) -> UserV {
        UserV {
            username: self.username@,
            contacts: self.contacts@.map_values(|c: Contact| c@),
            shared_contacts: self.shared_contacts@,
        }
    }
}

} // verus!
