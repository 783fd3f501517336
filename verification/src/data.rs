//! Plain data types: contact records, request payloads, and counters.

pub mod contact;
pub mod counter;
pub mod new_contact;
pub mod new_user;
pub mod user;
