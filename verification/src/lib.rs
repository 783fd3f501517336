//! A per-identity contact directory.
//!
//! Each caller identity owns a username, a list of contacts, and a list of
//! contact ids that other users have shared with it.  The heart of the crate
//! is a multi-index store that keeps three cross-referencing tables (identity
//! to user, username to identity, and contact id to contact record)
//! consistent under every operation, together with the access-control rules
//! that decide what a caller may read or change.
//!
//! Identities are opaque byte strings supplied by the hosting call-dispatch
//! layer; the crate never trusts a client-supplied identity.  Transport,
//! serialization and the persistence medium are left to the host.

pub mod access;
pub mod contact;
pub mod contact_store;
pub mod data;
pub mod directory;
pub mod id_list;
pub mod response;
pub mod user;
pub mod user_directory;
pub mod username_index;
