//! The identity-to-user table.
//!
//! One entry per identity; the directory layer is responsible for never
//! inserting the same identity twice (this table is mechanism, not policy).

use vstd::prelude::*;

use crate::data::user::{User, UserV};
use crate::id_list::remove_all;

verus! {

/// The mathematical value of a [`UserEntry`].
#[verifier::ext_equal]
pub ghost struct UserEntryV {
    pub identity: Seq<u8>,
    pub user: UserV,
}

/// One row of the table: an identity and the account it owns.
pub struct UserEntry {
    pub identity: Vec<u8>,
    pub user: User,
}

impl View for UserEntry {
    type V = UserEntryV;

    open spec fn view(&self) -> UserEntryV {
        UserEntryV { identity: self.identity@, user: self.user@ }
    }
}

/// Whether some entry of `s` carries `id`.
pub open spec fn has_identity(s: Seq<UserEntryV>, id: Seq<u8>) -> bool {
    exists|i: int| 0 <= i < s.len() && s[i].identity == id
}

/// The index of the entry carrying `id`; meaningful when `has_identity`
/// holds and identities are distinct.
pub open spec fn index_of_identity(s: Seq<UserEntryV>, id: Seq<u8>) -> int {
    choose|i: int| 0 <= i < s.len() && s[i].identity == id
}

/// The account registered under `id`; meaningful when `has_identity` holds.
pub open spec fn user_of(s: Seq<UserEntryV>, id: Seq<u8>) -> UserV {
    s[index_of_identity(s, id)].user
}

/// No identity occurs in two entries.
pub open spec fn distinct_identities(s: Seq<UserEntryV>) -> bool {
    forall|i: int, j: int| 0 <= i < j < s.len() ==> s[i].identity != s[j].identity
}

/// Under distinctness, the entry found at `i` is the entry `index_of_identity`
/// points at.
pub proof fn lemma_index_of_identity(s: Seq<UserEntryV>, i: int)
    requires
        distinct_identities(s),
        0 <= i < s.len(),
    ensures
        index_of_identity(s, s[i].identity) == i,
{
    let id = s[i].identity;
    assert(has_identity(s, id));
    let j = index_of_identity(s, id);
    assert(0 <= j < s.len() && s[j].identity == id);
    if j < i {
        assert(s[j].identity != s[i].identity);
    } else if i < j {
        assert(s[i].identity != s[j].identity);
    }
}

/// Appending an entry adds exactly its identity.
pub proof fn lemma_has_identity_push(s: Seq<UserEntryV>, e: UserEntryV, id: Seq<u8>)
    ensures
        has_identity(s.push(e), id) <==> (has_identity(s, id) || e.identity == id),
{
    let t = s.push(e);
    if has_identity(s, id) {
        let i = choose|i: int| 0 <= i < s.len() && s[i].identity == id;
        assert(t[i] == s[i]);
    }
    if e.identity == id {
        assert(t[s.len() as int] == e);
    }
    if has_identity(t, id) {
        let i = choose|i: int| 0 <= i < t.len() && t[i].identity == id;
        if i < s.len() {
            assert(s[i] == t[i]);
        } else {
            assert(t[i] == e);
        }
    }
}

/// Appending an entry with a fresh identity leaves old lookups unchanged.
pub proof fn lemma_user_of_push_old(s: Seq<UserEntryV>, e: UserEntryV, id: Seq<u8>)
    requires
        distinct_identities(s),
        has_identity(s, id),
        e.identity != id,
    ensures
        user_of(s.push(e), id) == user_of(s, id),
{
    let t = s.push(e);
    lemma_has_identity_push(s, e, id);
    let i = index_of_identity(s, id);
    assert(0 <= i < s.len() && s[i].identity == id);
    assert(t[i] == s[i]);
    let j = index_of_identity(t, id);
    assert(0 <= j < t.len() && t[j].identity == id);
    if j == s.len() {
        assert(t[j] == e);
    } else {
        lemma_index_of_identity(s, j);
    }
}

/// The appended entry is what a lookup of its identity finds.
pub proof fn lemma_user_of_push_new(s: Seq<UserEntryV>, e: UserEntryV)
    requires
        !has_identity(s, e.identity),
    ensures
        user_of(s.push(e), e.identity) == e.user,
{
    let t = s.push(e);
    assert(t[s.len() as int] == e);
    let j = index_of_identity(t, e.identity);
    assert(0 <= j < t.len() && t[j].identity == e.identity);
    if j < s.len() {
        assert(s[j] == t[j]);
    }
}

/// Two tables that agree on length and identities agree on which lookups
/// succeed, where they land, and on distinctness.
pub proof fn lemma_index_same_identities(s: Seq<UserEntryV>, t: Seq<UserEntryV>, id: Seq<u8>)
    requires
        distinct_identities(s),
        t.len() == s.len(),
        forall|k: int| 0 <= k < s.len() ==> t[k].identity == s[k].identity,
        has_identity(s, id),
    ensures
        has_identity(t, id),
        index_of_identity(t, id) == index_of_identity(s, id),
        distinct_identities(t),
{
    let i = index_of_identity(s, id);
    assert(0 <= i < s.len() && s[i].identity == id);
    assert(t[i].identity == id);
    assert(has_identity(t, id));
    assert(distinct_identities(t));
    lemma_index_of_identity(t, i);
}

/// Overwriting an entry in place (same identity) moves no lookup: the
/// changed identity reads the new user, every other identity the old one.
pub proof fn lemma_user_of_update(s: Seq<UserEntryV>, i: int, e: UserEntryV, id: Seq<u8>)
    requires
        distinct_identities(s),
        0 <= i < s.len(),
        e.identity == s[i].identity,
        has_identity(s, id),
    ensures
        has_identity(s.update(i, e), id),
        distinct_identities(s.update(i, e)),
        user_of(s.update(i, e), id) == if id == e.identity {
            e.user
        } else {
            user_of(s, id)
        },
{
    let t = s.update(i, e);
    lemma_index_same_identities(s, t, id);
    let j = index_of_identity(s, id);
    assert(0 <= j < s.len() && s[j].identity == id);
    if id == e.identity {
        lemma_index_of_identity(s, i);
    }
}

/// `e` with `cid` appended to its owned list.
pub open spec fn entry_with_owned_pushed(e: UserEntryV, cid: u64) -> UserEntryV {
    UserEntryV {
        identity: e.identity,
        user: UserV {
            username: e.user.username,
            contacts: e.user.contacts.push(cid),
            shared_contacts: e.user.shared_contacts,
        },
    }
}

/// `e` with `cid` appended to its shared list.
pub open spec fn entry_with_shared_pushed(e: UserEntryV, cid: u64) -> UserEntryV {
    UserEntryV {
        identity: e.identity,
        user: UserV {
            username: e.user.username,
            contacts: e.user.contacts,
            shared_contacts: e.user.shared_contacts.push(cid),
        },
    }
}

/// `e` with every occurrence of `cid` removed from its shared list.
pub open spec fn entry_with_shared_removed(e: UserEntryV, cid: u64) -> UserEntryV {
    UserEntryV {
        identity: e.identity,
        user: UserV {
            username: e.user.username,
            contacts: e.user.contacts,
            shared_contacts: remove_all(e.user.shared_contacts, cid),
        },
    }
}

/// `e` with every occurrence of `cid` removed from both of its lists.
pub open spec fn purged_entry(e: UserEntryV, cid: u64) -> UserEntryV {
    UserEntryV {
        identity: e.identity,
        user: UserV {
            username: e.user.username,
            contacts: remove_all(e.user.contacts, cid),
            shared_contacts: remove_all(e.user.shared_contacts, cid),
        },
    }
}

/// The identity-to-user table.  Its view is the sequence of entry views, in
/// insertion order.
pub struct UserDirectory {
    entries: Vec<UserEntry>,
}

impl View for UserDirectory {
    type V = Seq<UserEntryV>;

    closed spec fn view(&self) -> Seq<UserEntryV> {
        self.entries@.map_values(|e: UserEntry| e@)
    }
}

impl UserDirectory {
    /// An empty table.
    pub fn new() -> (d: UserDirectory)
        ensures
            d@ == Seq::<UserEntryV>::empty(),
    {
        let d = UserDirectory { entries: Vec::new() };
        proof {
            assert(d@ =~= Seq::<UserEntryV>::empty());
        }
        d
    }

    /// The index of the entry carrying `identity`, if any.
    fn find(&self, identity: &Vec<u8>) -> (r: Option<usize>)
        ensures
            match r {
                Some(i) => i < self@.len() && self@[i as int].identity == identity@,
                None => !has_identity(self@, identity@),
            },
    {
        let mut i: usize = 0;
        while i < self.entries.len()
            invariant
                i <= self@.len(),
                self@.len() == self.entries@.len(),
                forall|k: int| 0 <= k < i ==> self@[k].identity != identity@,
            decreases self@.len() - i,
        {
            if self.entries[i].identity == *identity {
                proof {
                    assert(self.entries@[i as int].identity@ =~= identity@);
                }
                return Some(i);
            }
            i = i + 1;
        }
        None
    }

    /// Whether `identity` has an entry.  Pure lookup, no side effects.
    pub fn contains(&self, identity: &Vec<u8>) -> (r: bool)
        ensures
            r == has_identity(self@, identity@),
    {
        self.find(identity).is_some()
    }

    /// The account registered under `identity`, if any.  Pure lookup.
    pub fn get(&self, identity: &Vec<u8>) -> (r: Option<&User>)
        requires
            distinct_identities(self@),
        ensures
            match r {
                Some(u) => has_identity(self@, identity@) && u@ == user_of(self@, identity@),
                None => !has_identity(self@, identity@),
            },
    {
        match self.find(identity) {
            None => None,
            Some(i) => {
                proof {
                    lemma_index_of_identity(self@, i as int);
                }
                Some(&self.entries[i].user)
            },
        }
    }

    /// Stores `user` under `identity`: appends a fresh entry, or overwrites
    /// the existing one.  Callers keep identities unique by checking
    /// `contains` first; this table does not itself reject duplicates.
    pub fn insert(&mut self, identity: Vec<u8>, user: User)
        requires
            distinct_identities(old(self)@),
        ensures
            !has_identity(old(self)@, identity@) ==> final(self)@ == old(self)@.push(
                UserEntryV { identity: identity@, user: user@ },
            ),
            has_identity(old(self)@, identity@) ==> final(self)@ == old(self)@.update(
                index_of_identity(old(self)@, identity@),
                UserEntryV { identity: identity@, user: user@ },
            ),
            distinct_identities(final(self)@),
    {
        let ghost pre = self@;
        match self.find(&identity) {
            None => {
                self.entries.push(UserEntry { identity, user });
                proof {
                    assert(final(self)@ =~= pre.push(
                        UserEntryV { identity: identity@, user: user@ },
                    ));
                    assert forall|i: int, j: int|
                        0 <= i < j < final(self)@.len() implies final(self)@[i].identity
                        != final(self)@[j].identity by {
                        if j < pre.len() {
                        } else {
                            assert(!has_identity(pre, identity@));
                        }
                    }
                }
            },
            Some(i) => {
                proof {
                    lemma_index_of_identity(pre, i as int);
                }
                let e = &mut self.entries[i];
                e.identity = identity;
                e.user = user;
                proof {
                    assert(final(self)@ =~= pre.update(
                        i as int,
                        UserEntryV { identity: identity@, user: user@ },
                    ));
                    assert forall|a: int, b: int|
                        0 <= a < b < final(self)@.len() implies final(self)@[a].identity
                        != final(self)@[b].identity by {
                        assert(pre[a].identity != pre[b].identity);
                    }
                }
            },
        }
    }

    /// Appends `cid` to the owned list of `identity`'s account.  Returns
    /// whether the account exists; without it nothing changes.
    pub fn push_owned(&mut self, identity: &Vec<u8>, cid: u64) -> (ok: bool)
        requires
            distinct_identities(old(self)@),
        ensures
            ok == has_identity(old(self)@, identity@),
            !ok ==> final(self)@ == old(self)@,
            ok ==> final(self)@ == old(self)@.update(
                index_of_identity(old(self)@, identity@),
                entry_with_owned_pushed(
                    old(self)@[index_of_identity(old(self)@, identity@)],
                    cid,
                ),
            ),
    {
        let ghost pre = self@;
        match self.find(identity) {
            None => false,
            Some(i) => {
                proof {
                    lemma_index_of_identity(pre, i as int);
                }
                let e = &mut self.entries[i];
                e.user.contacts.push(cid);
                proof {
                    assert(final(self)@ =~= pre.update(
                        i as int,
                        entry_with_owned_pushed(pre[i as int], cid),
                    ));
                }
                true
            },
        }
    }

    /// Appends `cid` to the shared list of `identity`'s account.  Returns
    /// whether the account exists; without it nothing changes.
    pub fn push_shared(&mut self, identity: &Vec<u8>, cid: u64) -> (ok: bool)
        requires
            distinct_identities(old(self)@),
        ensures
            ok == has_identity(old(self)@, identity@),
            !ok ==> final(self)@ == old(self)@,
            ok ==> final(self)@ == old(self)@.update(
                index_of_identity(old(self)@, identity@),
                entry_with_shared_pushed(
                    old(self)@[index_of_identity(old(self)@, identity@)],
                    cid,
                ),
            ),
    {
        let ghost pre = self@;
        match self.find(identity) {
            None => false,
            Some(i) => {
                proof {
                    lemma_index_of_identity(pre, i as int);
                }
                let e = &mut self.entries[i];
                e.user.shared_contacts.push(cid);
                proof {
                    assert(final(self)@ =~= pre.update(
                        i as int,
                        entry_with_shared_pushed(pre[i as int], cid),
                    ));
                }
                true
            },
        }
    }

    /// Removes every occurrence of `cid` from the shared list of
    /// `identity`'s account.  Returns whether the account exists; without it
    /// nothing changes.
    pub fn remove_shared(&mut self, identity: &Vec<u8>, cid: u64) -> (ok: bool)
        requires
            distinct_identities(old(self)@),
        ensures
            ok == has_identity(old(self)@, identity@),
            !ok ==> final(self)@ == old(self)@,
            ok ==> final(self)@ == old(self)@.update(
                index_of_identity(old(self)@, identity@),
                entry_with_shared_removed(
                    old(self)@[index_of_identity(old(self)@, identity@)],
                    cid,
                ),
            ),
    {
        let ghost pre = self@;
        match self.find(identity) {
            None => false,
            Some(i) => {
                proof {
                    lemma_index_of_identity(pre, i as int);
                }
                let e = &mut self.entries[i];
                let shared = crate::id_list::removed_ids(&e.user.shared_contacts, cid);
                e.user.shared_contacts = shared;
                proof {
                    assert(final(self)@ =~= pre.update(
                        i as int,
                        entry_with_shared_removed(pre[i as int], cid),
                    ));
                }
                true
            },
        }
    }

    /// Removes every occurrence of `cid` from the owned and shared lists of
    /// every account: the cascading cleanup a contact deletion requires.
    pub fn purge_contact_id(&mut self, cid: u64)
        ensures
            final(self)@.len() == old(self)@.len(),
            forall|i: int|
                0 <= i < old(self)@.len() ==> final(self)@[i] == purged_entry(old(self)@[i], cid),
    {
        let ghost pre = self@;
        let mut i: usize = 0;
        while i < self.entries.len()
            invariant
                i <= self.entries@.len(),
                self.entries@.len() == pre.len(),
                self@.len() == self.entries@.len(),
                forall|k: int| 0 <= k < i ==> self@[k] == purged_entry(pre[k], cid),
                forall|k: int| i <= k < pre.len() ==> self@[k] == pre[k],
            decreases self.entries@.len() - i,
        {
            let ghost snap = self@;
            let e = &mut self.entries[i];
            let owned = crate::id_list::removed_ids(&e.user.contacts, cid);
            let shared = crate::id_list::removed_ids(&e.user.shared_contacts, cid);
            e.user.contacts = owned;
            e.user.shared_contacts = shared;
            proof {
                assert(self@ =~= snap.update(i as int, purged_entry(snap[i as int], cid)));
            }
            i = i + 1;
        }
    }
}

} // verus!
