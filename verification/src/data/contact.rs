//! A contact record whose id may still be unassigned.

use vstd::prelude::*;

use crate::data::counter::Counter;

verus! {

/// A contact id.  Ids are assigned by the store, strictly increasing, and
/// never reused.
pub type ContactID = u64;

/// The mathematical value of a [`Contact`].
#[verifier::ext_equal]
pub ghost struct ContactV {
    pub id: Option<ContactID>,
    pub name: Seq<char>,
    pub email: Seq<char>,
    pub phone: Seq<char>,
}

/// A contact record in the shape it travels in: the id is present once a
/// counter has assigned one, and absent before that.
pub struct Contact {
    id: Option<ContactID>,
    pub name: String,
    pub email: String,
    pub phone: String,
}

impl View for Contact {
    type V = ContactV;

    closed spec fn view(&self) -> ContactV {
        ContactV { id: self.id, name: self.name@, email: self.email@, phone: self.phone@ }
    }
}

impl Contact {
    /// Builds a record.  With a counter, the record gets the counter's next
    /// id; without one, it stays unassigned.
    pub fn new(name: String, email: String, phone: String, contact_id_counter: Option<&mut Counter>) -> (c: Self)
        requires
            contact_id_counter matches Some(counter) ==> (*counter)@ < u64::MAX,
        ensures
            c@.name == name@,
            c@.email == email@,
            c@.phone == phone@,
            contact_id_counter matches None ==> c@.id matches None,
            contact_id_counter matches Some(counter) ==> c@.id == Some(((*counter)@ + 1) as u64)
                && (*final(counter))@ == (*counter)@ + 1,
    {
        match contact_id_counter {
            Some(counter) => {
                let id = Some(counter.increment());
                Self { id, name, email, phone }
            },
            None => Self { id: None, name, email, phone },
        }
    }
}

} // verus!
