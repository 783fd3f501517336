//! The stored contact record.

use vstd::prelude::*;

verus! {

/// The mathematical value of a [`Contact`].
#[verifier::ext_equal]
pub ghost struct ContactV {
    pub id: u64,
    pub name: Seq<char>,
    pub email: Seq<char>,
    pub phone: Seq<char>,
}

/// The values of a sequence of contact records.
pub open spec fn contacts_view(v: Seq<Contact>) -> Seq<ContactV> {
    v.map_values(|c: Contact| c@)
}

/// A contact record as the store keeps it.  The `id` is assigned by the
/// store when the record is created, is unique across the whole store, and
/// never changes afterwards.
pub struct Contact {
    pub id: u64,
    pub name: String,
    pub email: String,
    pub phone: String,
}

impl View for Contact {
    type V = ContactV;

    open spec fn view(&self) -> ContactV {
        ContactV { id: self.id, name: self.name@, email: self.email@, phone: self.phone@ }
    }
}

impl Clone for Contact {
    fn clone(&self) -> (c: Self)
        ensures
            c@ == self@,
    {
        Contact {
            id: self.id,
            name: self.name.clone(),
            email: self.email.clone(),
            phone: self.phone.clone(),
        }
    }
}

} // verus!
