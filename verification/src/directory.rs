//! The directory service: the use cases, and the invariants they keep.
//!
//! A [`Directory`] owns the three tables - identity to user, username to
//! identity, contact id to record - and is the only writer any of them
//! ever has.  Every operation resolves against a caller identity supplied
//! by the host, decides what the caller may do, and leaves the whole store
//! well formed: accounts and usernames unique and mutually consistent,
//! every referenced contact id present in the store, ownership exclusive,
//! and ids strictly increasing and never reused.

use vstd::prelude::*;

use crate::access::{can_mutate, can_read};
use crate::contact::{Contact, ContactV, contacts_view};
use crate::contact_store::{
    ContactStore, distinct_ids, has_id, ids_below, index_of_id, lemma_has_id_push,
    lemma_has_id_update, lemma_record_of_push_new, lemma_record_of_push_old,
    lemma_record_of_remove, lemma_record_of_update, record_of,
};
use crate::data::new_contact::NewContact;
use crate::data::new_user::NewUser;
use crate::data::user::{User, UserV};
use crate::id_list::{
    contains_id, lemma_no_dups_push, lemma_remove_all_absent, lemma_remove_all_contains,
    lemma_remove_all_no_dups, lemma_remove_all_push_same, no_dups, remove_all,
};
use crate::user_directory::{
    UserDirectory, UserEntryV, distinct_identities, entry_with_owned_pushed,
    entry_with_shared_pushed, entry_with_shared_removed, has_identity, index_of_identity,
    lemma_has_identity_push, lemma_index_of_identity, lemma_index_same_identities,
    lemma_user_of_push_new, lemma_user_of_push_old, lemma_user_of_update, purged_entry, user_of,
};
use crate::username_index::{
    UsernameIndex, NameEntryV, distinct_names, has_name, index_of_name, lemma_has_name_push,
    lemma_owner_of_name_push_new, lemma_owner_of_name_push_old, owner_of_name,
};

verus! {

/// Why an operation was refused.  The first six are expected outcomes a
/// caller can act on; `InternalConsistency` reports a broken store
/// invariant and is unreachable while the invariants hold.
#[derive(Clone, Copy, Debug, PartialEq, Eq, Structural)]
pub enum DirectoryError {
    /// The caller already has an account.
    AlreadyHasAccount,
    /// Another identity already registered the username.
    UsernameTaken,
    /// The caller has no account.
    NoAccount,
    /// No contact record carries the given id.
    ContactNotFound,
    /// No account carries the given recipient username.
    RecipientNotFound,
    /// The caller does not own the contact.
    Forbidden,
    /// The contact was not shared with the recipient.
    NotShared,
    /// A referenced contact id was missing from the store.
    InternalConsistency,
}

/// The mathematical value of a [`Directory`].
#[verifier::ext_equal]
pub ghost struct DirectoryV {
    /// The identity-to-user table, in account-creation order.
    pub users: Seq<UserEntryV>,
    /// The username-to-identity index, in reservation order.
    pub names: Seq<NameEntryV>,
    /// The contact records, in creation order.
    pub contacts: Seq<ContactV>,
    /// The next contact id to hand out.
    pub next_id: u64,
}

/// Whether `id` has an account.
pub open spec fn has_account(dv: DirectoryV, id: Seq<u8>) -> bool {
    has_identity(dv.users, id)
}

/// The account of `id`; meaningful when `has_account` holds.
pub open spec fn account_of(dv: DirectoryV, id: Seq<u8>) -> UserV {
    user_of(dv.users, id)
}

/// Whether some account has registered `name`.
pub open spec fn username_taken(dv: DirectoryV, name: Seq<char>) -> bool {
    has_name(dv.names, name)
}

/// The identity registered under `name`; meaningful when `username_taken`
/// holds.
pub open spec fn registered_identity(dv: DirectoryV, name: Seq<char>) -> Seq<u8> {
    owner_of_name(dv.names, name)
}

/// Whether a record is stored under `cid`.
pub open spec fn stored(dv: DirectoryV, cid: u64) -> bool {
    has_id(dv.contacts, cid)
}

/// The record stored under `cid`; meaningful when `stored` holds.
pub open spec fn contact_record(dv: DirectoryV, cid: u64) -> ContactV {
    record_of(dv.contacts, cid)
}

/// Whether `id` owns the contact `cid`.
pub open spec fn owns(dv: DirectoryV, id: Seq<u8>, cid: u64) -> bool {
    has_account(dv, id) && account_of(dv, id).contacts.contains(cid)
}

/// Whether the contact `cid` has been shared with `id`.
pub open spec fn shared_with(dv: DirectoryV, id: Seq<u8>, cid: u64) -> bool {
    has_account(dv, id) && account_of(dv, id).shared_contacts.contains(cid)
}

/// What a contact listing returns for `id`: the owned ids dereferenced to
/// their records, in list order.
pub open spec fn listing(dv: DirectoryV, id: Seq<u8>) -> Seq<ContactV> {
    account_of(dv, id).contacts.map_values(|cid: u64| record_of(dv.contacts, cid))
}

/// The usernames and the user table tell one story: every index entry
/// points at an account carrying exactly that username.
pub open spec fn names_users_consistent(dv: DirectoryV) -> bool {
    forall|i: int|
        0 <= i < dv.names.len() ==> has_identity(dv.users, #[trigger] dv.names[i].identity)
            && user_of(dv.users, dv.names[i].identity).username == dv.names[i].username
}

/// ... and every account's username is indexed back to its identity.
pub open spec fn users_names_consistent(dv: DirectoryV) -> bool {
    forall|i: int|
        0 <= i < dv.users.len() ==> has_name(dv.names, #[trigger] dv.users[i].user.username)
            && owner_of_name(dv.names, dv.users[i].user.username) == dv.users[i].identity
}

/// Every contact id referenced from any owned or shared list is stored.
pub open spec fn references_stored(dv: DirectoryV) -> bool {
    &&& forall|i: int, k: int|
        0 <= i < dv.users.len() && 0 <= k < dv.users[i].user.contacts.len() ==> has_id(
            dv.contacts,
            #[trigger] dv.users[i].user.contacts[k],
        )
    &&& forall|i: int, k: int|
        0 <= i < dv.users.len() && 0 <= k < dv.users[i].user.shared_contacts.len() ==> has_id(
            dv.contacts,
            #[trigger] dv.users[i].user.shared_contacts[k],
        )
}

/// No contact id sits in two different owned lists.
pub open spec fn ownership_exclusive(dv: DirectoryV) -> bool {
    forall|i: int, j: int, k: int, l: int|
        0 <= i < dv.users.len() && 0 <= j < dv.users.len() && i != j && 0 <= k < dv.users[i].user.contacts.len()
            && 0 <= l < dv.users[j].user.contacts.len() ==> #[trigger] dv.users[i].user.contacts[k]
            != #[trigger] dv.users[j].user.contacts[l]
}

/// Owned and shared lists never hold an id twice.
pub open spec fn lists_no_dups(dv: DirectoryV) -> bool {
    &&& forall|i: int| 0 <= i < dv.users.len() ==> no_dups(#[trigger] dv.users[i].user.contacts)
    &&& forall|i: int|
        0 <= i < dv.users.len() ==> no_dups(#[trigger] dv.users[i].user.shared_contacts)
}

/// The store invariant: what holds after every successful operation.
pub open spec fn directory_wf(dv: DirectoryV) -> bool {
    &&& distinct_identities(dv.users)
    &&& distinct_names(dv.names)
    &&& distinct_ids(dv.contacts)
    &&& ids_below(dv.contacts, dv.next_id)
    &&& names_users_consistent(dv)
    &&& users_names_consistent(dv)
    &&& references_stored(dv)
    &&& ownership_exclusive(dv)
    &&& lists_no_dups(dv)
}

/// The transition a granted share performs: the recipient's shared list
/// grows by the contact id, and nothing else moves.
pub open spec fn share_grant(pre: DirectoryV, post: DirectoryV, recipient: Seq<u8>, cid: u64) -> bool {
    let ridx = index_of_identity(pre.users, recipient);
    &&& post.users == pre.users.update(ridx, entry_with_shared_pushed(pre.users[ridx], cid))
    &&& post.names == pre.names
    &&& post.contacts == pre.contacts
    &&& post.next_id == pre.next_id
}

/// The transition a revocation performs: the contact id leaves the
/// recipient's shared list, and nothing else moves.
pub open spec fn revoke_removal(pre: DirectoryV, post: DirectoryV, recipient: Seq<u8>, cid: u64) -> bool {
    let ridx = index_of_identity(pre.users, recipient);
    &&& post.users == pre.users.update(ridx, entry_with_shared_removed(pre.users[ridx], cid))
    &&& post.names == pre.names
    &&& post.contacts == pre.contacts
    &&& post.next_id == pre.next_id
}

/// The directory service.
pub struct Directory {
    users: UserDirectory,
    usernames: UsernameIndex,
    contacts: ContactStore,
}

impl View for Directory {
    type V = DirectoryV;

    closed spec fn view(&self) -> DirectoryV {
        DirectoryV {
            users: self.users@,
            names: self.usernames@,
            contacts: self.contacts@.records,
            next_id: self.contacts@.next_id,
        }
    }
}

impl Directory {
    /// The store invariant, as a predicate on the service.
    pub open spec fn wf(self) -> bool {
        directory_wf(self@)
    }

    /// An empty directory: no accounts, no usernames, no contacts, and 0 as
    /// the first contact id to hand out.
    pub fn new() -> (d: Directory)
        ensures
            d.wf(),
            d@.users == Seq::<UserEntryV>::empty(),
            d@.names == Seq::<NameEntryV>::empty(),
            d@.contacts == Seq::<ContactV>::empty(),
            d@.next_id == 0,
    {
        Directory {
            users: UserDirectory::new(),
            usernames: UsernameIndex::new(),
            contacts: ContactStore::new(),
        }
    }

    /// The username of the caller's account, if the caller has one.
    pub fn whoami(&self, caller: &Vec<u8>) -> (r: Option<String>)
        requires
            self.wf(),
        ensures
            match r {
                Some(name) => has_account(self@, caller@) && name@ == account_of(
                    self@,
                    caller@,
                ).username,
                None => !has_account(self@, caller@),
            },
    {
        match self.users.get(caller) {
            None => None,
            Some(u) => Some(u.username.clone()),
        }
    }

    /// Creates an account for the caller under `new_user.username`.
    ///
    /// Refused with `AlreadyHasAccount` when the caller has an account, and
    /// with `UsernameTaken` when another identity holds the username; in
    /// both cases nothing changes.  On success the new account starts with
    /// empty owned and shared lists, and both the user table and the
    /// username index grow by exactly the one entry.
    pub fn create_account(&mut self, caller: &Vec<u8>, new_user: NewUser) -> (r: Result<
        (),
        DirectoryError,
    >)
        requires
            old(self).wf(),
        ensures
            final(self).wf(),
            ({
                let pre = old(self)@;
                let post = final(self)@;
                if has_account(pre, caller@) {
                    r == Err::<(), DirectoryError>(DirectoryError::AlreadyHasAccount) && post
                        == pre
                } else if username_taken(pre, new_user.username@) {
                    r == Err::<(), DirectoryError>(DirectoryError::UsernameTaken) && post == pre
                } else {
                    &&& r == Ok::<(), DirectoryError>(())
                    &&& post.users == pre.users.push(
                        UserEntryV {
                            identity: caller@,
                            user: UserV {
                                username: new_user.username@,
                                contacts: Seq::<u64>::empty(),
                                shared_contacts: Seq::<u64>::empty(),
                            },
                        },
                    )
                    &&& post.names == pre.names.push(
                        NameEntryV { username: new_user.username@, identity: caller@ },
                    )
                    &&& post.contacts == pre.contacts
                    &&& post.next_id == pre.next_id
                }
            }),
    {
        let ghost pre = self@;
        if self.users.contains(caller) {
            return Err(DirectoryError::AlreadyHasAccount);
        }
        if self.usernames.contains(&new_user.username) {
            return Err(DirectoryError::UsernameTaken);
        }
        let user = User {
            username: new_user.username.clone(),
            contacts: Vec::new(),
            shared_contacts: Vec::new(),
        };
        let ghost uv = user@;
        let ghost ue = UserEntryV { identity: caller@, user: uv };
        let ghost ne = NameEntryV { username: new_user.username@, identity: caller@ };
        self.users.insert(caller.clone(), user);
        self.usernames.reserve(new_user.username, caller.clone());
        proof {
            let post = self@;
            assert(uv.contacts =~= Seq::<u64>::empty());
            assert(uv.shared_contacts =~= Seq::<u64>::empty());
            assert(post.users == pre.users.push(ue));
            assert(post.names == pre.names.push(ne));
            lemma_create_account_wf(pre, post, caller@, uv.username);
        }
        Ok(())
    }

    /// Creates a contact from the caller's submission.
    ///
    /// Refused with `NoAccount` when the caller has no account; nothing
    /// changes then.  On success the store assigns the next unused id,
    /// keeps the record under it, appends the id to the caller's owned
    /// list, and returns it; the caller's listing grows by exactly the new
    /// record, and nothing else moves.
    pub fn create_contact(&mut self, caller: &Vec<u8>, new_contact: NewContact) -> (r: Result<
        u64,
        DirectoryError,
    >)
        requires
            old(self).wf(),
            old(self)@.next_id < u64::MAX,
        ensures
            final(self).wf(),
            old(self)@.next_id <= final(self)@.next_id,
            ({
                let pre = old(self)@;
                let post = final(self)@;
                if !has_account(pre, caller@) {
                    r == Err::<u64, DirectoryError>(DirectoryError::NoAccount) && post == pre
                } else {
                    let id = pre.next_id;
                    let cv = ContactV {
                        id: id,
                        name: new_contact.name@,
                        email: new_contact.email@,
                        phone: new_contact.phone@,
                    };
                    &&& r == Ok::<u64, DirectoryError>(id)
                    &&& post.contacts == pre.contacts.push(cv)
                    &&& post.next_id == id + 1
                    &&& post.names == pre.names
                    &&& post.users == pre.users.update(
                        index_of_identity(pre.users, caller@),
                        entry_with_owned_pushed(
                            pre.users[index_of_identity(pre.users, caller@)],
                            id,
                        ),
                    )
                    &&& stored(post, id) && contact_record(post, id) == cv
                    &&& account_of(post, caller@).contacts == account_of(
                        pre,
                        caller@,
                    ).contacts.push(id)
                    &&& listing(post, caller@) == listing(pre, caller@).push(cv)
                }
            }),
    {
        let ghost pre = self@;
        if !self.users.contains(caller) {
            return Err(DirectoryError::NoAccount);
        }
        let id = self.contacts.allocate_id();
        let record = Contact {
            id,
            name: new_contact.name,
            email: new_contact.email,
            phone: new_contact.phone,
        };
        let ghost cv = record@;
        proof {
            assert(!has_id(pre.contacts, id)) by {
                if has_id(pre.contacts, id) {
                    let i = choose|i: int|
                        0 <= i < pre.contacts.len() && pre.contacts[i].id == id;
                    assert(pre.contacts[i].id < pre.next_id);
                }
            }
        }
        self.contacts.put(record);
        let pushed = self.users.push_owned(caller, id);
        proof {
            assert(pushed);
            lemma_create_contact_wf(pre, self@, caller@, cv);
        }
        Ok(id)
    }

    /// The caller's contacts: the records its owned ids point at, in
    /// insertion order.
    ///
    /// Refused with `NoAccount` when the caller has no account.  An owned
    /// id with no record behind it would be reported as
    /// `InternalConsistency` rather than skipped; the store invariant rules
    /// that out.
    pub fn get_contacts(&self, caller: &Vec<u8>) -> (r: Result<Vec<Contact>, DirectoryError>)
        requires
            self.wf(),
        ensures
            match r {
                Ok(v) => has_account(self@, caller@) && contacts_view(v@) == listing(
                    self@,
                    caller@,
                ),
                Err(e) => e == DirectoryError::NoAccount && !has_account(self@, caller@),
            },
    {
        let user = match self.users.get(caller) {
            None => {
                return Err(DirectoryError::NoAccount);
            },
            Some(u) => u,
        };
        let ghost uidx = index_of_identity(self@.users, caller@);
        let mut out: Vec<Contact> = Vec::new();
        let mut i: usize = 0;
        while i < user.contacts.len()
            invariant
                self.wf(),
                has_account(self@, caller@),
                user@ == account_of(self@, caller@),
                uidx == index_of_identity(self@.users, caller@),
                i <= user.contacts@.len(),
                contacts_view(out@) == listing(self@, caller@).take(i as int),
            decreases user.contacts@.len() - i,
        {
            let cid = user.contacts[i];
            proof {
                assert(0 <= uidx < self@.users.len() && self@.users[uidx].identity == caller@);
                assert(self@.users[uidx].user == user@);
                assert(has_id(self@.contacts, self@.users[uidx].user.contacts[i as int]));
            }
            let record = match self.contacts.get(cid) {
                None => {
                    return Err(DirectoryError::InternalConsistency);
                },
                Some(c) => c.clone(),
            };
            let ghost rv = record@;
            let ghost prev = out@;
            out.push(record);
            proof {
                let l = listing(self@, caller@);
                assert(l.len() == account_of(self@, caller@).contacts.len());
                assert(contacts_view(prev).len() == prev.len());
                assert(prev.len() == i as int);
                assert(out@.len() == i + 1);
                assert(l[i as int] == record_of(self@.contacts, user@.contacts[i as int]));
                assert(rv == l[i as int]);
                assert forall|k: int| 0 <= k < i + 1 implies contacts_view(out@)[k] == l.take(
                    i + 1,
                )[k] by {
                    assert(contacts_view(out@)[k] == out@[k]@);
                    if k < i as int {
                        assert(out@[k] == prev[k]);
                        assert(contacts_view(prev)[k] == l.take(i as int)[k]);
                        assert(l.take(i as int)[k] == l[k]);
                        assert(l.take(i + 1)[k] == l[k]);
                    } else {
                        assert(out@[k]@ == rv);
                        assert(l.take(i + 1)[k] == l[i as int]);
                    }
                }
                assert(contacts_view(out@) =~= l.take(i + 1));
            }
            i = i + 1;
        }
        proof {
            assert(listing(self@, caller@).take(user.contacts@.len() as int) =~= listing(
                self@,
                caller@,
            ));
        }
        Ok(out)
    }
    /// The id the next created contact will get.  Ids only grow and are
    /// never reused, so this also bounds every id the store has ever
    /// handed out.
    pub fn next_contact_id(&self) -> (id: u64)
        ensures
            id == self@.next_id,
    {
        self.contacts.next_id()
    }

    /// Reads one contact the caller may see: a contact it owns, or one
    /// shared with it.
    ///
    /// Refused with `NoAccount` when the caller has no account, with
    /// `ContactNotFound` when no record carries the id, and with
    /// `Forbidden` when the record exists but the caller neither owns it
    /// nor holds a share of it.
    pub fn get_contact(&self, caller: &Vec<u8>, contact_id: u64) -> (r: Result<
        Contact,
        DirectoryError,
    >)
        requires
            self.wf(),
        ensures
            ({
                let dv = self@;
                if !has_account(dv, caller@) {
                    r == Err::<Contact, DirectoryError>(DirectoryError::NoAccount)
                } else if !stored(dv, contact_id) {
                    r == Err::<Contact, DirectoryError>(DirectoryError::ContactNotFound)
                } else if !(owns(dv, caller@, contact_id) || shared_with(dv, caller@, contact_id)) {
                    r == Err::<Contact, DirectoryError>(DirectoryError::Forbidden)
                } else {
                    r matches Ok(c) && c@ == contact_record(dv, contact_id)
                }
            }),
    {
        let user = match self.users.get(caller) {
            None => {
                return Err(DirectoryError::NoAccount);
            },
            Some(u) => u,
        };
        if !self.contacts.contains(contact_id) {
            return Err(DirectoryError::ContactNotFound);
        }
        if !can_read(contact_id, &user.contacts, &user.shared_contacts) {
            return Err(DirectoryError::Forbidden);
        }
        match self.contacts.get(contact_id) {
            None => Err(DirectoryError::InternalConsistency),
            Some(c) => Ok(c.clone()),
        }
    }

    /// The ids of the contacts others have shared with the caller, in
    /// grant order.
    ///
    /// Refused with `NoAccount` when the caller has no account.
    pub fn get_shared_ids(&self, caller: &Vec<u8>) -> (r: Result<Vec<u64>, DirectoryError>)
        requires
            self.wf(),
        ensures
            match r {
                Ok(v) => has_account(self@, caller@) && v@ == account_of(
                    self@,
                    caller@,
                ).shared_contacts,
                Err(e) => e == DirectoryError::NoAccount && !has_account(self@, caller@),
            },
    {
        match self.users.get(caller) {
            None => Err(DirectoryError::NoAccount),
            Some(u) => {
                let ids = u.shared_contacts.clone();
                proof {
                    assert(ids@ =~= u.shared_contacts@);
                }
                Ok(ids)
            },
        }
    }

    /// Overwrites the name, email and phone of an owned contact; the id is
    /// immutable.
    ///
    /// Refused with `NoAccount` when the caller has no account, with
    /// `ContactNotFound` when no record carries the id, and with
    /// `Forbidden` when the record exists but the caller does not own it;
    /// nothing changes in any refused case.  Shared recipients get
    /// read-only access, so for them this is `Forbidden` too.
    pub fn edit_contact(&mut self, caller: &Vec<u8>, contact_id: u64, updates: NewContact) -> (r:
        Result<(), DirectoryError>)
        requires
            old(self).wf(),
        ensures
            final(self).wf(),
            ({
                let pre = old(self)@;
                let post = final(self)@;
                if !has_account(pre, caller@) {
                    r == Err::<(), DirectoryError>(DirectoryError::NoAccount) && post == pre
                } else if !stored(pre, contact_id) {
                    r == Err::<(), DirectoryError>(DirectoryError::ContactNotFound) && post == pre
                } else if !owns(pre, caller@, contact_id) {
                    r == Err::<(), DirectoryError>(DirectoryError::Forbidden) && post == pre
                } else {
                    let cv = ContactV {
                        id: contact_id,
                        name: updates.name@,
                        email: updates.email@,
                        phone: updates.phone@,
                    };
                    &&& r == Ok::<(), DirectoryError>(())
                    &&& post.contacts == pre.contacts.update(
                        index_of_id(pre.contacts, contact_id),
                        cv,
                    )
                    &&& post.users == pre.users
                    &&& post.names == pre.names
                    &&& post.next_id == pre.next_id
                    &&& contact_record(post, contact_id) == cv
                    &&& forall|x: u64| stored(post, x) <==> stored(pre, x)
                    &&& forall|x: u64|
                        x != contact_id && stored(pre, x) ==> contact_record(post, x)
                            == contact_record(pre, x)
                }
            }),
    {
        let ghost pre = self@;
        match self.users.get(caller) {
            None => {
                return Err(DirectoryError::NoAccount);
            },
            Some(user) => {
                if !self.contacts.contains(contact_id) {
                    return Err(DirectoryError::ContactNotFound);
                }
                if !can_mutate(contact_id, &user.contacts) {
                    return Err(DirectoryError::Forbidden);
                }
            },
        }
        let record = Contact {
            id: contact_id,
            name: updates.name,
            email: updates.email,
            phone: updates.phone,
        };
        let ghost cv = record@;
        self.contacts.put(record);
        proof {
            lemma_edit_contact_wf(pre, self@, cv);
        }
        Ok(())
    }

    /// Deletes an owned contact, cascading: the record leaves the store,
    /// the id leaves the owner's owned list, and the id leaves the shared
    /// list of every user it was shared with.  No stale id survives.
    ///
    /// Refused with `NoAccount`, `ContactNotFound` or `Forbidden` exactly
    /// as editing is; nothing changes in any refused case.  The freed id is
    /// never handed out again: the allocator does not move.
    pub fn delete_contact(&mut self, caller: &Vec<u8>, contact_id: u64) -> (r: Result<
        (),
        DirectoryError,
    >)
        requires
            old(self).wf(),
        ensures
            final(self).wf(),
            ({
                let pre = old(self)@;
                let post = final(self)@;
                if !has_account(pre, caller@) {
                    r == Err::<(), DirectoryError>(DirectoryError::NoAccount) && post == pre
                } else if !stored(pre, contact_id) {
                    r == Err::<(), DirectoryError>(DirectoryError::ContactNotFound) && post == pre
                } else if !owns(pre, caller@, contact_id) {
                    r == Err::<(), DirectoryError>(DirectoryError::Forbidden) && post == pre
                } else {
                    &&& r == Ok::<(), DirectoryError>(())
                    &&& post.contacts == pre.contacts.remove(index_of_id(pre.contacts, contact_id))
                    &&& post.names == pre.names
                    &&& post.next_id == pre.next_id
                    &&& post.users.len() == pre.users.len()
                    &&& forall|i: int|
                        0 <= i < pre.users.len() ==> post.users[i] == purged_entry(
                            pre.users[i],
                            contact_id,
                        )
                    &&& !stored(post, contact_id)
                    &&& forall|i: int|
                        0 <= i < post.users.len() ==> !post.users[i].user.contacts.contains(
                            contact_id,
                        ) && !post.users[i].user.shared_contacts.contains(contact_id)
                    &&& forall|x: u64|
                        x != contact_id ==> (stored(post, x) <==> stored(pre, x))
                    &&& forall|x: u64|
                        x != contact_id && stored(pre, x) ==> contact_record(post, x)
                            == contact_record(pre, x)
                }
            }),
    {
        let ghost pre = self@;
        match self.users.get(caller) {
            None => {
                return Err(DirectoryError::NoAccount);
            },
            Some(user) => {
                if !self.contacts.contains(contact_id) {
                    return Err(DirectoryError::ContactNotFound);
                }
                if !can_mutate(contact_id, &user.contacts) {
                    return Err(DirectoryError::Forbidden);
                }
            },
        }
        self.contacts.delete(contact_id);
        self.users.purge_contact_id(contact_id);
        proof {
            lemma_delete_contact_wf(pre, self@, contact_id);
        }
        Ok(())
    }

    /// Shares an owned contact with the account registered under
    /// `recipient_username`: the contact id joins the recipient's shared
    /// list, granting read-only visibility the owner can revoke.
    ///
    /// Refused with `NoAccount`, `ContactNotFound` or `Forbidden` exactly
    /// as editing is, and with `RecipientNotFound` when no account carries
    /// the username; nothing changes in any refused case.  Sharing a
    /// contact already shared with the recipient is an idempotent success:
    /// the grant is already in place and nothing changes.
    pub fn share_contact(
        &mut self,
        caller: &Vec<u8>,
        contact_id: u64,
        recipient_username: &String,
    ) -> (r: Result<(), DirectoryError>)
        requires
            old(self).wf(),
        ensures
            final(self).wf(),
            ({
                let pre = old(self)@;
                let post = final(self)@;
                if !has_account(pre, caller@) {
                    r == Err::<(), DirectoryError>(DirectoryError::NoAccount) && post == pre
                } else if !stored(pre, contact_id) {
                    r == Err::<(), DirectoryError>(DirectoryError::ContactNotFound) && post == pre
                } else if !owns(pre, caller@, contact_id) {
                    r == Err::<(), DirectoryError>(DirectoryError::Forbidden) && post == pre
                } else if !username_taken(pre, recipient_username@) {
                    r == Err::<(), DirectoryError>(DirectoryError::RecipientNotFound) && post
                        == pre
                } else {
                    let rid = registered_identity(pre, recipient_username@);
                    &&& r == Ok::<(), DirectoryError>(())
                    &&& (shared_with(pre, rid, contact_id) ==> post == pre)
                    &&& (!shared_with(pre, rid, contact_id) ==> share_grant(
                        pre,
                        post,
                        rid,
                        contact_id,
                    ))
                    &&& shared_with(post, rid, contact_id)
                }
            }),
    {
        let ghost pre = self@;
        match self.users.get(caller) {
            None => {
                return Err(DirectoryError::NoAccount);
            },
            Some(user) => {
                if !self.contacts.contains(contact_id) {
                    return Err(DirectoryError::ContactNotFound);
                }
                if !can_mutate(contact_id, &user.contacts) {
                    return Err(DirectoryError::Forbidden);
                }
            },
        }
        let recipient = match self.usernames.lookup(recipient_username) {
            None => {
                return Err(DirectoryError::RecipientNotFound);
            },
            Some(id) => id.clone(),
        };
        let ghost rid = registered_identity(pre, recipient_username@);
        proof {
            assert(recipient@ == rid);
            let nidx = index_of_name(pre.names, recipient_username@);
            assert(0 <= nidx < pre.names.len() && pre.names[nidx].username
                == recipient_username@);
            assert(has_identity(pre.users, pre.names[nidx].identity));
        }
        let ghost ridx = index_of_identity(pre.users, rid);
        let already = match self.users.get(&recipient) {
            None => {
                return Err(DirectoryError::InternalConsistency);
            },
            Some(ruser) => contains_id(&ruser.shared_contacts, contact_id),
        };
        if already {
            return Ok(());
        }
        let granted = self.users.push_shared(&recipient, contact_id);
        proof {
            assert(granted);
            assert(0 <= ridx < pre.users.len() && pre.users[ridx].identity == rid);
            let e = entry_with_shared_pushed(pre.users[ridx], contact_id);
            lemma_no_dups_push(pre.users[ridx].user.shared_contacts, contact_id);
            assert forall|x: u64| e.user.shared_contacts.contains(x) implies has_id(
                pre.contacts,
                x,
            ) by {
                let k = choose|k: int|
                    0 <= k < e.user.shared_contacts.len() && e.user.shared_contacts[k] == x;
                if k < pre.users[ridx].user.shared_contacts.len() {
                    assert(pre.users[ridx].user.shared_contacts[k] == x);
                } else {
                    assert(x == contact_id);
                }
            }
            lemma_shared_change_wf(pre, self@, ridx, e.user.shared_contacts);
            lemma_user_of_update(pre.users, ridx, e, rid);
            assert(account_of(self@, rid).shared_contacts[pre.users[ridx].user.shared_contacts.len() as int] == contact_id);
        }
        Ok(())
    }

    /// Takes a previously granted share back: the contact id leaves the
    /// recipient's shared list.
    ///
    /// Refused with `NoAccount`, `ContactNotFound`, `Forbidden` or
    /// `RecipientNotFound` exactly as sharing is, and with `NotShared` when
    /// the contact is not in the recipient's shared list; nothing changes
    /// in any refused case.
    pub fn revoke_shared_contact(
        &mut self,
        caller: &Vec<u8>,
        contact_id: u64,
        recipient_username: &String,
    ) -> (r: Result<(), DirectoryError>)
        requires
            old(self).wf(),
        ensures
            final(self).wf(),
            ({
                let pre = old(self)@;
                let post = final(self)@;
                if !has_account(pre, caller@) {
                    r == Err::<(), DirectoryError>(DirectoryError::NoAccount) && post == pre
                } else if !stored(pre, contact_id) {
                    r == Err::<(), DirectoryError>(DirectoryError::ContactNotFound) && post == pre
                } else if !owns(pre, caller@, contact_id) {
                    r == Err::<(), DirectoryError>(DirectoryError::Forbidden) && post == pre
                } else if !username_taken(pre, recipient_username@) {
                    r == Err::<(), DirectoryError>(DirectoryError::RecipientNotFound) && post
                        == pre
                } else {
                    let rid = registered_identity(pre, recipient_username@);
                    if !shared_with(pre, rid, contact_id) {
                        r == Err::<(), DirectoryError>(DirectoryError::NotShared) && post == pre
                    } else {
                        &&& r == Ok::<(), DirectoryError>(())
                        &&& revoke_removal(pre, post, rid, contact_id)
                        &&& !shared_with(post, rid, contact_id)
                    }
                }
            }),
    {
        let ghost pre = self@;
        match self.users.get(caller) {
            None => {
                return Err(DirectoryError::NoAccount);
            },
            Some(user) => {
                if !self.contacts.contains(contact_id) {
                    return Err(DirectoryError::ContactNotFound);
                }
                if !can_mutate(contact_id, &user.contacts) {
                    return Err(DirectoryError::Forbidden);
                }
            },
        }
        let recipient = match self.usernames.lookup(recipient_username) {
            None => {
                return Err(DirectoryError::RecipientNotFound);
            },
            Some(id) => id.clone(),
        };
        let ghost rid = registered_identity(pre, recipient_username@);
        proof {
            assert(recipient@ == rid);
            let nidx = index_of_name(pre.names, recipient_username@);
            assert(0 <= nidx < pre.names.len() && pre.names[nidx].username
                == recipient_username@);
            assert(has_identity(pre.users, pre.names[nidx].identity));
        }
        let ghost ridx = index_of_identity(pre.users, rid);
        let already = match self.users.get(&recipient) {
            None => {
                return Err(DirectoryError::InternalConsistency);
            },
            Some(ruser) => contains_id(&ruser.shared_contacts, contact_id),
        };
        if !already {
            return Err(DirectoryError::NotShared);
        }
        let removed = self.users.remove_shared(&recipient, contact_id);
        proof {
            assert(removed);
            assert(0 <= ridx < pre.users.len() && pre.users[ridx].identity == rid);
            let e = entry_with_shared_removed(pre.users[ridx], contact_id);
            lemma_remove_all_no_dups(pre.users[ridx].user.shared_contacts, contact_id);
            assert forall|x: u64| e.user.shared_contacts.contains(x) implies has_id(
                pre.contacts,
                x,
            ) by {
                lemma_remove_all_contains(pre.users[ridx].user.shared_contacts, contact_id, x);
                let k = choose|k: int|
                    0 <= k < pre.users[ridx].user.shared_contacts.len()
                        && pre.users[ridx].user.shared_contacts[k] == x;
                assert(has_id(pre.contacts, pre.users[ridx].user.shared_contacts[k]));
            }
            lemma_shared_change_wf(pre, self@, ridx, e.user.shared_contacts);
            lemma_user_of_update(pre.users, ridx, e, rid);
            assert(!shared_with(self@, rid, contact_id)) by {
                lemma_remove_all_contains(
                    pre.users[ridx].user.shared_contacts,
                    contact_id,
                    contact_id,
                );
            }
        }
        Ok(())
    }
}

/// For every identity, at most one account exists: in a well-formed
/// directory, two user entries carrying the same identity are one entry.
pub proof fn lemma_one_account_per_identity(dv: DirectoryV, i: int, j: int)
    requires
        directory_wf(dv),
        0 <= i < dv.users.len(),
        0 <= j < dv.users.len(),
        dv.users[i].identity == dv.users[j].identity,
    ensures
        i == j,
{
    if i < j {
        assert(dv.users[i].identity != dv.users[j].identity);
    } else if j < i {
        assert(dv.users[j].identity != dv.users[i].identity);
    }
}

/// For every username, at most one identity is registered: in a
/// well-formed directory, two accounts carrying the same username are one
/// account.
pub proof fn lemma_one_identity_per_username(dv: DirectoryV, i: int, j: int)
    requires
        directory_wf(dv),
        0 <= i < dv.users.len(),
        0 <= j < dv.users.len(),
        dv.users[i].user.username == dv.users[j].user.username,
    ensures
        i == j,
        dv.users[i].identity == dv.users[j].identity,
{
    assert(owner_of_name(dv.names, dv.users[i].user.username) == dv.users[i].identity);
    assert(owner_of_name(dv.names, dv.users[j].user.username) == dv.users[j].identity);
    lemma_one_account_per_identity(dv, i, j);
}

/// Sharing a contact and then revoking it is a round trip: the recipient's
/// shared list returns to its pre-share state - indeed the whole directory
/// does.  (Holds when the contact was not already shared with the
/// recipient before; sharing is idempotent, so revoking after a repeated
/// share removes the one grant there is.)
pub proof fn lemma_share_then_revoke_round_trip(
    d0: DirectoryV,
    d1: DirectoryV,
    d2: DirectoryV,
    recipient: Seq<u8>,
    cid: u64,
)
    requires
        directory_wf(d0),
        has_account(d0, recipient),
        !shared_with(d0, recipient, cid),
        share_grant(d0, d1, recipient, cid),
        revoke_removal(d1, d2, recipient, cid),
    ensures
        account_of(d2, recipient).shared_contacts == account_of(d0, recipient).shared_contacts,
        d2 == d0,
{
    let ridx = index_of_identity(d0.users, recipient);
    assert(0 <= ridx < d0.users.len() && d0.users[ridx].identity == recipient);
    lemma_index_of_identity(d0.users, ridx);
    assert(account_of(d0, recipient) == d0.users[ridx].user);
    let e1 = entry_with_shared_pushed(d0.users[ridx], cid);
    lemma_index_same_identities(d0.users, d1.users, recipient);
    assert(index_of_identity(d1.users, recipient) == ridx);
    assert(d1.users[ridx] == e1);
    let e2 = entry_with_shared_removed(d1.users[ridx], cid);
    let s0 = d0.users[ridx].user.shared_contacts;
    assert(!s0.contains(cid));
    lemma_remove_all_push_same(s0, cid);
    lemma_remove_all_absent(s0, cid);
    assert(e2.user.shared_contacts == s0);
    assert(e2 == d0.users[ridx]);
    assert(d2.users =~= d0.users);
    assert(d2 =~= d0);
    assert(account_of(d2, recipient) == account_of(d0, recipient));
}

/// Changing one user's shared list to ids that are stored and duplicate
/// free preserves the store invariant.
proof fn lemma_shared_change_wf(pre: DirectoryV, post: DirectoryV, ridx: int, shared: Seq<u64>)
    requires
        directory_wf(pre),
        0 <= ridx < pre.users.len(),
        post.users == pre.users.update(
            ridx,
            UserEntryV {
                identity: pre.users[ridx].identity,
                user: UserV {
                    username: pre.users[ridx].user.username,
                    contacts: pre.users[ridx].user.contacts,
                    shared_contacts: shared,
                },
            },
        ),
        forall|x: u64| shared.contains(x) ==> has_id(pre.contacts, x),
        no_dups(shared),
        post.names == pre.names,
        post.contacts == pre.contacts,
        post.next_id == pre.next_id,
    ensures
        directory_wf(post),
{
    let e = UserEntryV {
        identity: pre.users[ridx].identity,
        user: UserV {
            username: pre.users[ridx].user.username,
            contacts: pre.users[ridx].user.contacts,
            shared_contacts: shared,
        },
    };
    assert(distinct_identities(post.users)) by {
        lemma_index_same_identities(pre.users, post.users, pre.users[ridx].identity);
    }
    assert(names_users_consistent(post)) by {
        assert forall|i: int| 0 <= i < post.names.len() implies has_identity(
            post.users,
            #[trigger] post.names[i].identity,
        ) && user_of(post.users, post.names[i].identity).username
            == post.names[i].username by {
            assert(pre.names[i] == post.names[i]);
            lemma_index_same_identities(pre.users, post.users, pre.names[i].identity);
            lemma_user_of_update(pre.users, ridx, e, pre.names[i].identity);
        }
    }
    assert(users_names_consistent(post)) by {
        assert forall|i: int| 0 <= i < post.users.len() implies has_name(
            post.names,
            #[trigger] post.users[i].user.username,
        ) && owner_of_name(post.names, post.users[i].user.username)
            == post.users[i].identity by {
            if i == ridx {
                assert(post.users[i] == e);
            } else {
                assert(post.users[i] == pre.users[i]);
            }
        }
    }
    assert(references_stored(post)) by {
        assert forall|i: int, k: int|
            0 <= i < post.users.len() && 0 <= k < post.users[i].user.contacts.len() implies has_id(
            post.contacts,
            #[trigger] post.users[i].user.contacts[k],
        ) by {
            if i == ridx {
                assert(post.users[i] == e);
                assert(e.user.contacts == pre.users[ridx].user.contacts);
                assert(has_id(pre.contacts, pre.users[ridx].user.contacts[k]));
            } else {
                assert(post.users[i] == pre.users[i]);
                assert(has_id(pre.contacts, pre.users[i].user.contacts[k]));
            }
        }
        assert forall|i: int, k: int|
            0 <= i < post.users.len() && 0 <= k
                < post.users[i].user.shared_contacts.len() implies has_id(
            post.contacts,
            #[trigger] post.users[i].user.shared_contacts[k],
        ) by {
            if i == ridx {
                assert(post.users[i] == e);
                assert(shared.contains(shared[k]));
            } else {
                assert(post.users[i] == pre.users[i]);
                assert(has_id(pre.contacts, pre.users[i].user.shared_contacts[k]));
            }
        }
    }
    assert(ownership_exclusive(post)) by {
        assert forall|i: int, j: int, k: int, l: int|
            0 <= i < post.users.len() && 0 <= j < post.users.len() && i != j && 0 <= k
                < post.users[i].user.contacts.len() && 0 <= l
                < post.users[j].user.contacts.len() implies #[trigger] post.users[i].user.contacts[k]
            != #[trigger] post.users[j].user.contacts[l] by {
            assert(post.users[i].user.contacts == pre.users[i].user.contacts);
            assert(post.users[j].user.contacts == pre.users[j].user.contacts);
        }
    }
    assert(lists_no_dups(post)) by {
        assert forall|i: int| 0 <= i < post.users.len() implies no_dups(
            #[trigger] post.users[i].user.contacts,
        ) && no_dups(post.users[i].user.shared_contacts) by {
            if i == ridx {
                assert(post.users[i] == e);
            } else {
                assert(post.users[i] == pre.users[i]);
            }
        }
    }
}

/// Overwriting a stored record in place (same id) preserves the store
/// invariant and moves no other record.
proof fn lemma_edit_contact_wf(pre: DirectoryV, post: DirectoryV, cv: ContactV)
    requires
        directory_wf(pre),
        stored(pre, cv.id),
        post.contacts == pre.contacts.update(index_of_id(pre.contacts, cv.id), cv),
        post.users == pre.users,
        post.names == pre.names,
        post.next_id == pre.next_id,
    ensures
        directory_wf(post),
        contact_record(post, cv.id) == cv,
        forall|x: u64| stored(post, x) <==> stored(pre, x),
        forall|x: u64|
            x != cv.id && stored(pre, x) ==> contact_record(post, x) == contact_record(pre, x),
{
    let cidx = index_of_id(pre.contacts, cv.id);
    assert(0 <= cidx < pre.contacts.len() && pre.contacts[cidx].id == cv.id);
    assert forall|x: u64| stored(post, x) <==> stored(pre, x) by {
        lemma_has_id_update(pre.contacts, cidx, cv, x);
    }
    assert forall|x: u64| stored(pre, x) implies #[trigger] contact_record(post, x) == if x
        == cv.id {
        cv
    } else {
        contact_record(pre, x)
    } by {
        lemma_record_of_update(pre.contacts, cidx, cv, x);
    }
    assert(contact_record(post, cv.id) == cv);
    assert(distinct_ids(post.contacts)) by {
        lemma_record_of_update(pre.contacts, cidx, cv, cv.id);
    }
    assert(ids_below(post.contacts, post.next_id)) by {
        assert forall|i: int| 0 <= i < post.contacts.len() implies post.contacts[i].id
            < post.next_id by {
            if i == cidx {
                assert(post.contacts[i] == cv);
                assert(pre.contacts[cidx].id < pre.next_id);
            } else {
                assert(post.contacts[i] == pre.contacts[i]);
            }
        }
    }
    assert(references_stored(post)) by {
        assert forall|i: int, k: int|
            0 <= i < post.users.len() && 0 <= k < post.users[i].user.contacts.len() implies has_id(
            post.contacts,
            #[trigger] post.users[i].user.contacts[k],
        ) by {
            assert(has_id(pre.contacts, pre.users[i].user.contacts[k]));
            lemma_has_id_update(pre.contacts, cidx, cv, pre.users[i].user.contacts[k]);
        }
        assert forall|i: int, k: int|
            0 <= i < post.users.len() && 0 <= k
                < post.users[i].user.shared_contacts.len() implies has_id(
            post.contacts,
            #[trigger] post.users[i].user.shared_contacts[k],
        ) by {
            assert(has_id(pre.contacts, pre.users[i].user.shared_contacts[k]));
            lemma_has_id_update(pre.contacts, cidx, cv, pre.users[i].user.shared_contacts[k]);
        }
    }
}

/// Deleting a record and purging its id from every list preserves the
/// store invariant; no reference to the id survives anywhere.
proof fn lemma_delete_contact_wf(pre: DirectoryV, post: DirectoryV, cid: u64)
    requires
        directory_wf(pre),
        stored(pre, cid),
        post.contacts == pre.contacts.remove(index_of_id(pre.contacts, cid)),
        post.names == pre.names,
        post.next_id == pre.next_id,
        post.users.len() == pre.users.len(),
        forall|i: int| 0 <= i < pre.users.len() ==> post.users[i] == purged_entry(pre.users[i], cid),
    ensures
        directory_wf(post),
        !stored(post, cid),
        forall|i: int|
            0 <= i < post.users.len() ==> !post.users[i].user.contacts.contains(cid)
                && !post.users[i].user.shared_contacts.contains(cid),
        forall|x: u64| x != cid ==> (stored(post, x) <==> stored(pre, x)),
        forall|x: u64|
            x != cid && stored(pre, x) ==> contact_record(post, x) == contact_record(pre, x),
{
    let cidx = index_of_id(pre.contacts, cid);
    assert(0 <= cidx < pre.contacts.len() && pre.contacts[cidx].id == cid);
    assert(forall|i: int|
        0 <= i < post.users.len() ==> (#[trigger] post.users[i]).identity == pre.users[i].identity
            && post.users[i].user.username == pre.users[i].user.username
            && post.users[i].user.contacts == remove_all(pre.users[i].user.contacts, cid)
            && post.users[i].user.shared_contacts == remove_all(
            pre.users[i].user.shared_contacts,
            cid,
        ));
    assert(!stored(post, cid)) by {
        if has_id(post.contacts, cid) {
            let a = choose|a: int| 0 <= a < post.contacts.len() && post.contacts[a].id == cid;
            let pa = if a < cidx {
                a
            } else {
                a + 1
            };
            assert(post.contacts[a] == pre.contacts[pa]);
            assert(pre.contacts[pa].id != pre.contacts[cidx].id);
        }
    }
    assert forall|x: u64| x != cid implies (stored(post, x) <==> stored(pre, x)) by {
        if stored(pre, x) {
            lemma_record_of_remove(pre.contacts, cidx, x);
        }
        if has_id(post.contacts, x) {
            let a = choose|a: int| 0 <= a < post.contacts.len() && post.contacts[a].id == x;
            let pa = if a < cidx {
                a
            } else {
                a + 1
            };
            assert(post.contacts[a] == pre.contacts[pa]);
        }
    }
    assert forall|x: u64| x != cid && stored(pre, x) implies contact_record(post, x)
        == contact_record(pre, x) by {
        lemma_record_of_remove(pre.contacts, cidx, x);
    }
    assert(distinct_ids(post.contacts)) by {
        assert forall|a: int, b: int|
            0 <= a < b < post.contacts.len() implies post.contacts[a].id
            != post.contacts[b].id by {
            let pa = if a < cidx {
                a
            } else {
                a + 1
            };
            let pb = if b < cidx {
                b
            } else {
                b + 1
            };
            assert(post.contacts[a] == pre.contacts[pa]);
            assert(post.contacts[b] == pre.contacts[pb]);
            assert(pre.contacts[pa].id != pre.contacts[pb].id);
        }
    }
    assert(ids_below(post.contacts, post.next_id)) by {
        assert forall|a: int| 0 <= a < post.contacts.len() implies post.contacts[a].id
            < post.next_id by {
            let pa = if a < cidx {
                a
            } else {
                a + 1
            };
            assert(post.contacts[a] == pre.contacts[pa]);
            assert(pre.contacts[pa].id < pre.next_id);
        }
    }
    assert(distinct_identities(post.users));
    assert(names_users_consistent(post)) by {
        assert forall|i: int| 0 <= i < post.names.len() implies has_identity(
            post.users,
            #[trigger] post.names[i].identity,
        ) && user_of(post.users, post.names[i].identity).username
            == post.names[i].username by {
            assert(pre.names[i] == post.names[i]);
            lemma_index_same_identities(pre.users, post.users, pre.names[i].identity);
            let ui = index_of_identity(pre.users, pre.names[i].identity);
            assert(0 <= ui < pre.users.len() && pre.users[ui].identity == pre.names[i].identity);
            assert(post.users[ui].user.username == pre.users[ui].user.username);
        }
    }
    assert(users_names_consistent(post)) by {
        assert forall|i: int| 0 <= i < post.users.len() implies has_name(
            post.names,
            #[trigger] post.users[i].user.username,
        ) && owner_of_name(post.names, post.users[i].user.username)
            == post.users[i].identity by {
            assert(post.users[i].user.username == pre.users[i].user.username);
            assert(post.users[i].identity == pre.users[i].identity);
        }
    }
    assert forall|i: int| 0 <= i < post.users.len() implies !(
    #[trigger] post.users[i].user.contacts).contains(cid)
        && !post.users[i].user.shared_contacts.contains(cid) by {
        lemma_remove_all_contains(pre.users[i].user.contacts, cid, cid);
        lemma_remove_all_contains(pre.users[i].user.shared_contacts, cid, cid);
    }
    assert(references_stored(post)) by {
        assert forall|i: int, k: int|
            0 <= i < post.users.len() && 0 <= k < post.users[i].user.contacts.len() implies has_id(
            post.contacts,
            #[trigger] post.users[i].user.contacts[k],
        ) by {
            let x = post.users[i].user.contacts[k];
            assert(post.users[i].user.contacts.contains(x));
            lemma_remove_all_contains(pre.users[i].user.contacts, cid, x);
            let m = choose|m: int|
                0 <= m < pre.users[i].user.contacts.len() && pre.users[i].user.contacts[m] == x;
            assert(has_id(pre.contacts, pre.users[i].user.contacts[m]));
            lemma_record_of_remove(pre.contacts, cidx, x);
        }
        assert forall|i: int, k: int|
            0 <= i < post.users.len() && 0 <= k
                < post.users[i].user.shared_contacts.len() implies has_id(
            post.contacts,
            #[trigger] post.users[i].user.shared_contacts[k],
        ) by {
            let x = post.users[i].user.shared_contacts[k];
            assert(post.users[i].user.shared_contacts.contains(x));
            lemma_remove_all_contains(pre.users[i].user.shared_contacts, cid, x);
            let m = choose|m: int|
                0 <= m < pre.users[i].user.shared_contacts.len()
                    && pre.users[i].user.shared_contacts[m] == x;
            assert(has_id(pre.contacts, pre.users[i].user.shared_contacts[m]));
            lemma_record_of_remove(pre.contacts, cidx, x);
        }
    }
    assert(ownership_exclusive(post)) by {
        assert forall|i: int, j: int, k: int, l: int|
            0 <= i < post.users.len() && 0 <= j < post.users.len() && i != j && 0 <= k
                < post.users[i].user.contacts.len() && 0 <= l
                < post.users[j].user.contacts.len() implies #[trigger] post.users[i].user.contacts[k]
            != #[trigger] post.users[j].user.contacts[l] by {
            let x = post.users[i].user.contacts[k];
            let y = post.users[j].user.contacts[l];
            if x == y {
                assert(post.users[i].user.contacts.contains(x));
                assert(post.users[j].user.contacts.contains(y));
                lemma_remove_all_contains(pre.users[i].user.contacts, cid, x);
                lemma_remove_all_contains(pre.users[j].user.contacts, cid, y);
                let m = choose|m: int|
                    0 <= m < pre.users[i].user.contacts.len() && pre.users[i].user.contacts[m]
                        == x;
                let n = choose|n: int|
                    0 <= n < pre.users[j].user.contacts.len() && pre.users[j].user.contacts[n]
                        == y;
                assert(pre.users[i].user.contacts[m] != pre.users[j].user.contacts[n]);
            }
        }
    }
    assert(lists_no_dups(post)) by {
        assert forall|i: int| 0 <= i < post.users.len() implies no_dups(
            #[trigger] post.users[i].user.contacts,
        ) && no_dups(post.users[i].user.shared_contacts) by {
            lemma_remove_all_no_dups(pre.users[i].user.contacts, cid);
            lemma_remove_all_no_dups(pre.users[i].user.shared_contacts, cid);
        }
    }
}

/// Creating a contact for an account holder preserves the store invariant,
/// and the holder's listing grows by exactly the new record.
proof fn lemma_create_contact_wf(pre: DirectoryV, post: DirectoryV, caller: Seq<u8>, cv: ContactV)
    requires
        directory_wf(pre),
        has_account(pre, caller),
        pre.next_id < u64::MAX,
        cv.id == pre.next_id,
        post.contacts == pre.contacts.push(cv),
        post.next_id == pre.next_id + 1,
        post.names == pre.names,
        post.users == pre.users.update(
            index_of_identity(pre.users, caller),
            entry_with_owned_pushed(pre.users[index_of_identity(pre.users, caller)], cv.id),
        ),
    ensures
        directory_wf(post),
        stored(post, cv.id),
        contact_record(post, cv.id) == cv,
        account_of(post, caller).contacts == account_of(pre, caller).contacts.push(cv.id),
        listing(post, caller) == listing(pre, caller).push(cv),
{
    let uidx = index_of_identity(pre.users, caller);
    assert(0 <= uidx < pre.users.len() && pre.users[uidx].identity == caller);
    let e = entry_with_owned_pushed(pre.users[uidx], cv.id);
    assert(!has_id(pre.contacts, cv.id)) by {
        if has_id(pre.contacts, cv.id) {
            let i = choose|i: int| 0 <= i < pre.contacts.len() && pre.contacts[i].id == cv.id;
            assert(pre.contacts[i].id < pre.next_id);
        }
    }
    lemma_index_of_identity(pre.users, uidx);
    assert(account_of(pre, caller) == pre.users[uidx].user);
    lemma_index_same_identities(pre.users, post.users, caller);
    lemma_user_of_update(pre.users, uidx, e, caller);
    assert(account_of(post, caller) == e.user);
    lemma_record_of_push_new(pre.contacts, cv);
    assert(stored(post, cv.id)) by {
        assert(post.contacts[pre.contacts.len() as int] == cv);
    }
    assert(distinct_ids(post.contacts)) by {
        assert forall|i: int, j: int|
            0 <= i < j < post.contacts.len() implies post.contacts[i].id
            != post.contacts[j].id by {
            if j == pre.contacts.len() {
                assert(post.contacts[i] == pre.contacts[i]);
                assert(pre.contacts[i].id < pre.next_id);
            } else {
                assert(post.contacts[i] == pre.contacts[i]);
                assert(post.contacts[j] == pre.contacts[j]);
            }
        }
    }
    assert(ids_below(post.contacts, post.next_id)) by {
        assert forall|i: int| 0 <= i < post.contacts.len() implies post.contacts[i].id
            < post.next_id by {
            if i < pre.contacts.len() {
                assert(post.contacts[i] == pre.contacts[i]);
                assert(pre.contacts[i].id < pre.next_id);
            } else {
                assert(post.contacts[i] == cv);
            }
        }
    }
    assert(names_users_consistent(post)) by {
        assert forall|i: int| 0 <= i < post.names.len() implies has_identity(
            post.users,
            #[trigger] post.names[i].identity,
        ) && user_of(post.users, post.names[i].identity).username
            == post.names[i].username by {
            assert(pre.names[i] == post.names[i]);
            lemma_index_same_identities(pre.users, post.users, pre.names[i].identity);
            lemma_user_of_update(pre.users, uidx, e, pre.names[i].identity);
        }
    }
    assert(users_names_consistent(post)) by {
        assert forall|i: int| 0 <= i < post.users.len() implies has_name(
            post.names,
            #[trigger] post.users[i].user.username,
        ) && owner_of_name(post.names, post.users[i].user.username)
            == post.users[i].identity by {
            if i == uidx {
                assert(post.users[i] == e);
                assert(e.user.username == pre.users[uidx].user.username);
            } else {
                assert(post.users[i] == pre.users[i]);
            }
        }
    }
    assert(references_stored(post)) by {
        assert forall|i: int, k: int|
            0 <= i < post.users.len() && 0 <= k < post.users[i].user.contacts.len() implies has_id(
            post.contacts,
            #[trigger] post.users[i].user.contacts[k],
        ) by {
            lemma_has_id_push(pre.contacts, cv, post.users[i].user.contacts[k]);
            if i == uidx {
                assert(post.users[i] == e);
                if k < pre.users[uidx].user.contacts.len() {
                    assert(e.user.contacts[k] == pre.users[uidx].user.contacts[k]);
                    assert(has_id(pre.contacts, pre.users[uidx].user.contacts[k]));
                } else {
                    assert(e.user.contacts[k] == cv.id);
                }
            } else {
                assert(post.users[i] == pre.users[i]);
                assert(has_id(pre.contacts, pre.users[i].user.contacts[k]));
            }
        }
        assert forall|i: int, k: int|
            0 <= i < post.users.len() && 0 <= k
                < post.users[i].user.shared_contacts.len() implies has_id(
            post.contacts,
            #[trigger] post.users[i].user.shared_contacts[k],
        ) by {
            lemma_has_id_push(pre.contacts, cv, post.users[i].user.shared_contacts[k]);
            if i == uidx {
                assert(post.users[i] == e);
                assert(e.user.shared_contacts == pre.users[uidx].user.shared_contacts);
                assert(has_id(pre.contacts, pre.users[uidx].user.shared_contacts[k]));
            } else {
                assert(post.users[i] == pre.users[i]);
                assert(has_id(pre.contacts, pre.users[i].user.shared_contacts[k]));
            }
        }
    }
    assert(ownership_exclusive(post)) by {
        assert forall|i: int, j: int, k: int, l: int|
            0 <= i < post.users.len() && 0 <= j < post.users.len() && i != j && 0 <= k
                < post.users[i].user.contacts.len() && 0 <= l
                < post.users[j].user.contacts.len() implies #[trigger] post.users[i].user.contacts[k]
            != #[trigger] post.users[j].user.contacts[l] by {
            if i == uidx {
                assert(post.users[i] == e);
                assert(post.users[j] == pre.users[j]);
                if k == pre.users[uidx].user.contacts.len() {
                    assert(e.user.contacts[k] == cv.id);
                    assert(has_id(pre.contacts, pre.users[j].user.contacts[l]));
                    let m = index_of_id(pre.contacts, pre.users[j].user.contacts[l]);
                    assert(pre.contacts[m].id < pre.next_id);
                } else {
                    assert(e.user.contacts[k] == pre.users[uidx].user.contacts[k]);
                }
            } else if j == uidx {
                assert(post.users[j] == e);
                assert(post.users[i] == pre.users[i]);
                if l == pre.users[uidx].user.contacts.len() {
                    assert(e.user.contacts[l] == cv.id);
                    assert(has_id(pre.contacts, pre.users[i].user.contacts[k]));
                    let m = index_of_id(pre.contacts, pre.users[i].user.contacts[k]);
                    assert(pre.contacts[m].id < pre.next_id);
                } else {
                    assert(e.user.contacts[l] == pre.users[uidx].user.contacts[l]);
                }
            } else {
                assert(post.users[i] == pre.users[i]);
                assert(post.users[j] == pre.users[j]);
            }
        }
    }
    assert(lists_no_dups(post)) by {
        assert(!pre.users[uidx].user.contacts.contains(cv.id)) by {
            if pre.users[uidx].user.contacts.contains(cv.id) {
                let k = choose|k: int|
                    0 <= k < pre.users[uidx].user.contacts.len()
                        && pre.users[uidx].user.contacts[k] == cv.id;
                assert(has_id(pre.contacts, pre.users[uidx].user.contacts[k]));
                let m = index_of_id(pre.contacts, cv.id);
                assert(pre.contacts[m].id < pre.next_id);
            }
        }
        lemma_no_dups_push(pre.users[uidx].user.contacts, cv.id);
        assert forall|i: int| 0 <= i < post.users.len() implies no_dups(
            #[trigger] post.users[i].user.contacts,
        ) && no_dups(post.users[i].user.shared_contacts) by {
            if i == uidx {
                assert(post.users[i] == e);
            } else {
                assert(post.users[i] == pre.users[i]);
            }
        }
    }
    assert(listing(post, caller) =~= listing(pre, caller).push(cv)) by {
        let pre_owned = pre.users[uidx].user.contacts;
        assert(account_of(post, caller).contacts == pre_owned.push(cv.id));
        assert forall|k: int| 0 <= k < pre_owned.len() + 1 implies listing(post, caller)[k]
            == listing(pre, caller).push(cv)[k] by {
            if k < pre_owned.len() {
                let cid = pre_owned[k];
                assert(has_id(pre.contacts, cid));
                assert(cid != cv.id) by {
                    let m = index_of_id(pre.contacts, cid);
                    assert(pre.contacts[m].id < pre.next_id);
                }
                lemma_record_of_push_old(pre.contacts, cv, cid);
            } else {
                assert(pre_owned.push(cv.id)[k] == cv.id);
            }
        }
    }
}

/// Creating a fresh, consistent account preserves the store invariant.
proof fn lemma_create_account_wf(pre: DirectoryV, post: DirectoryV, id: Seq<u8>, name: Seq<char>)
    requires
        directory_wf(pre),
        !has_account(pre, id),
        !username_taken(pre, name),
        post.users == pre.users.push(
            UserEntryV {
                identity: id,
                user: UserV {
                    username: name,
                    contacts: Seq::<u64>::empty(),
                    shared_contacts: Seq::<u64>::empty(),
                },
            },
        ),
        post.names == pre.names.push(NameEntryV { username: name, identity: id }),
        post.contacts == pre.contacts,
        post.next_id == pre.next_id,
    ensures
        directory_wf(post),
{
    let ue = UserEntryV {
        identity: id,
        user: UserV {
            username: name,
            contacts: Seq::<u64>::empty(),
            shared_contacts: Seq::<u64>::empty(),
        },
    };
    let ne = NameEntryV { username: name, identity: id };
    assert(distinct_identities(post.users)) by {
        assert forall|i: int, j: int|
            0 <= i < j < post.users.len() implies post.users[i].identity
            != post.users[j].identity by {
            if j == pre.users.len() {
                assert(post.users[i] == pre.users[i]);
                assert(has_identity(pre.users, pre.users[i].identity));
            } else {
                assert(post.users[i] == pre.users[i]);
                assert(post.users[j] == pre.users[j]);
            }
        }
    }
    assert(distinct_names(post.names)) by {
        assert forall|i: int, j: int|
            0 <= i < j < post.names.len() implies post.names[i].username
            != post.names[j].username by {
            if j == pre.names.len() {
                assert(post.names[i] == pre.names[i]);
                assert(has_name(pre.names, pre.names[i].username));
            } else {
                assert(post.names[i] == pre.names[i]);
                assert(post.names[j] == pre.names[j]);
            }
        }
    }
    assert(names_users_consistent(post)) by {
        assert forall|i: int| 0 <= i < post.names.len() implies has_identity(
            post.users,
            #[trigger] post.names[i].identity,
        ) && user_of(post.users, post.names[i].identity).username
            == post.names[i].username by {
            if i < pre.names.len() {
                assert(post.names[i] == pre.names[i]);
                lemma_has_identity_push(pre.users, ue, pre.names[i].identity);
                assert(pre.names[i].identity != id);
                lemma_user_of_push_old(pre.users, ue, pre.names[i].identity);
            } else {
                assert(post.names[i] == ne);
                lemma_has_identity_push(pre.users, ue, id);
                lemma_user_of_push_new(pre.users, ue);
            }
        }
    }
    assert(users_names_consistent(post)) by {
        assert forall|i: int| 0 <= i < post.users.len() implies has_name(
            post.names,
            #[trigger] post.users[i].user.username,
        ) && owner_of_name(post.names, post.users[i].user.username)
            == post.users[i].identity by {
            if i < pre.users.len() {
                assert(post.users[i] == pre.users[i]);
                lemma_has_name_push(pre.names, ne, pre.users[i].user.username);
                assert(pre.users[i].user.username != name);
                lemma_owner_of_name_push_old(pre.names, ne, pre.users[i].user.username);
            } else {
                assert(post.users[i] == ue);
                lemma_has_name_push(pre.names, ne, name);
                lemma_owner_of_name_push_new(pre.names, ne);
            }
        }
    }
    assert(references_stored(post)) by {
        assert forall|i: int, k: int|
            0 <= i < post.users.len() && 0 <= k < post.users[i].user.contacts.len() implies has_id(
            post.contacts,
            #[trigger] post.users[i].user.contacts[k],
        ) by {
            assert(i < pre.users.len());
            assert(post.users[i] == pre.users[i]);
        }
        assert forall|i: int, k: int|
            0 <= i < post.users.len() && 0 <= k
                < post.users[i].user.shared_contacts.len() implies has_id(
            post.contacts,
            #[trigger] post.users[i].user.shared_contacts[k],
        ) by {
            assert(i < pre.users.len());
            assert(post.users[i] == pre.users[i]);
        }
    }
    assert(ownership_exclusive(post)) by {
        assert forall|i: int, j: int, k: int, l: int|
            0 <= i < post.users.len() && 0 <= j < post.users.len() && i != j && 0 <= k
                < post.users[i].user.contacts.len() && 0 <= l
                < post.users[j].user.contacts.len() implies #[trigger] post.users[i].user.contacts[k]
            != #[trigger] post.users[j].user.contacts[l] by {
            assert(i < pre.users.len() || post.users[i].user.contacts.len() == 0);
            assert(j < pre.users.len() || post.users[j].user.contacts.len() == 0);
            assert(post.users[i] == pre.users[i]);
            assert(post.users[j] == pre.users[j]);
        }
    }
    assert(lists_no_dups(post)) by {
        assert forall|i: int| 0 <= i < post.users.len() implies no_dups(
            #[trigger] post.users[i].user.contacts,
        ) && no_dups(post.users[i].user.shared_contacts) by {
            if i < pre.users.len() {
                assert(post.users[i] == pre.users[i]);
            } else {
                assert(post.users[i] == ue);
            }
        }
    }
}

} // verus!
