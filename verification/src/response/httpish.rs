//! The coarse response type the endpoints answer with.
//!
//! The directory itself reports precise [`DirectoryError`] values; an
//! endpoint folds them into a `BasicResponse` with the message its callers
//! expect.

use vstd::prelude::*;

use crate::directory::DirectoryError;

verus! {

/// A response in the shape of an HTTP outcome.
pub enum BasicResponse {
    /// The operation succeeded; the message says what was done.
    Success(String),
    /// The caller has no account here.
    Unauthorized,
    /// The caller may not touch the addressed contact.
    Forbidden,
    /// The request conflicts with the store's state; the message says how.
    Conflict(String),
}

impl BasicResponse {
    /// The response the account-creation endpoint answers with.
    pub fn for_account_creation(r: &Result<(), DirectoryError>) -> (resp: BasicResponse)
        ensures
            match r {
                Ok(_) => resp matches BasicResponse::Success(m) && m@
                    == "Account created successfully"@,
                Err(DirectoryError::AlreadyHasAccount) => resp matches BasicResponse::Conflict(m)
                    && m@ == "User already has an account"@,
                Err(DirectoryError::UsernameTaken) => resp matches BasicResponse::Conflict(m)
                    && m@ == "Username already taken"@,
                Err(DirectoryError::Forbidden) => resp == BasicResponse::Forbidden,
                Err(_) => resp == BasicResponse::Unauthorized,
            },
    {
        match r {
            Ok(_) => BasicResponse::Success("Account created successfully".to_owned()),
            Err(DirectoryError::AlreadyHasAccount) => BasicResponse::Conflict(
                "User already has an account".to_owned(),
            ),
            Err(DirectoryError::UsernameTaken) => BasicResponse::Conflict(
                "Username already taken".to_owned(),
            ),
            Err(DirectoryError::Forbidden) => BasicResponse::Forbidden,
            Err(_) => BasicResponse::Unauthorized,
        }
    }

    /// The response the contact-creation endpoint answers with.
    pub fn for_contact_creation(r: &Result<u64, DirectoryError>) -> (resp: BasicResponse)
        ensures
            match r {
                Ok(_) => resp matches BasicResponse::Success(m) && m@
                    == "Contact created successfully"@,
                Err(DirectoryError::Forbidden) => resp == BasicResponse::Forbidden,
                Err(_) => resp == BasicResponse::Unauthorized,
            },
    {
        match r {
            Ok(_) => BasicResponse::Success("Contact created successfully".to_owned()),
            Err(DirectoryError::Forbidden) => BasicResponse::Forbidden,
            Err(_) => BasicResponse::Unauthorized,
        }
    }

    /// The response the contact-listing endpoint answers with.
    pub fn for_contact_listing(ok: bool) -> (resp: BasicResponse)
        ensures
            ok ==> (resp matches BasicResponse::Success(m) && m@
                == "Contacts retrieved successfully"@),
            !ok ==> resp == BasicResponse::Unauthorized,
    {
        if ok {
            BasicResponse::Success("Contacts retrieved successfully".to_owned())
        } else {
            BasicResponse::Unauthorized
        }
    }
}

} // verus!
