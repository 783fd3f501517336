//! The username-to-identity table.
//!
//! The secondary index that makes usernames globally unique: one entry per
//! username.  As with the user table, uniqueness is the caller's policy;
//! `reserve` itself overwrites unconditionally.

use vstd::prelude::*;

verus! {

/// The mathematical value of a [`NameEntry`].
#[verifier::ext_equal]
pub ghost struct NameEntryV {
    pub username: Seq<char>,
    pub identity: Seq<u8>,
}

/// One row of the index: a username and the identity that claimed it.
pub struct NameEntry {
    pub username: String,
    pub identity: Vec<u8>,
}

impl View for NameEntry {
    type V = NameEntryV;

    open spec fn view(&self) -> NameEntryV {
        NameEntryV { username: self.username@, identity: self.identity@ }
    }
}

/// Whether some entry of `s` carries `name`.
pub open spec fn has_name(s: Seq<NameEntryV>, name: Seq<char>) -> bool {
    exists|i: int| 0 <= i < s.len() && s[i].username == name
}

/// The index of the entry carrying `name`; meaningful when `has_name` holds
/// and usernames are distinct.
pub open spec fn index_of_name(s: Seq<NameEntryV>, name: Seq<char>) -> int {
    choose|i: int| 0 <= i < s.len() && s[i].username == name
}

/// The identity that claimed `name`; meaningful when `has_name` holds.
pub open spec fn owner_of_name(s: Seq<NameEntryV>, name: Seq<char>) -> Seq<u8> {
    s[index_of_name(s, name)].identity
}

/// No username occurs in two entries.
pub open spec fn distinct_names(s: Seq<NameEntryV>) -> bool {
    forall|i: int, j: int| 0 <= i < j < s.len() ==> s[i].username != s[j].username
}

/// Under distinctness, the entry found at `i` is the entry `index_of_name`
/// points at.
pub proof fn lemma_index_of_name(s: Seq<NameEntryV>, i: int)
    requires
        distinct_names(s),
        0 <= i < s.len(),
    ensures
        index_of_name(s, s[i].username) == i,
{
    let name = s[i].username;
    assert(has_name(s, name));
    let j = index_of_name(s, name);
    assert(0 <= j < s.len() && s[j].username == name);
    if j < i {
        assert(s[j].username != s[i].username);
    } else if i < j {
        assert(s[i].username != s[j].username);
    }
}

/// Appending an entry adds exactly its username.
pub proof fn lemma_has_name_push(s: Seq<NameEntryV>, e: NameEntryV, name: Seq<char>)
    ensures
        has_name(s.push(e), name) <==> (has_name(s, name) || e.username == name),
{
    let t = s.push(e);
    if has_name(s, name) {
        let i = choose|i: int| 0 <= i < s.len() && s[i].username == name;
        assert(t[i] == s[i]);
    }
    if e.username == name {
        assert(t[s.len() as int] == e);
    }
    if has_name(t, name) {
        let i = choose|i: int| 0 <= i < t.len() && t[i].username == name;
        if i < s.len() {
            assert(s[i] == t[i]);
        } else {
            assert(t[i] == e);
        }
    }
}

/// Appending an entry with a fresh username leaves old lookups unchanged.
pub proof fn lemma_owner_of_name_push_old(s: Seq<NameEntryV>, e: NameEntryV, name: Seq<char>)
    requires
        distinct_names(s),
        has_name(s, name),
        e.username != name,
    ensures
        owner_of_name(s.push(e), name) == owner_of_name(s, name),
{
    let t = s.push(e);
    let i = index_of_name(s, name);
    assert(0 <= i < s.len() && s[i].username == name);
    assert(t[i] == s[i]);
    let j = index_of_name(t, name);
    assert(0 <= j < t.len() && t[j].username == name);
    if j == s.len() {
        assert(t[j] == e);
    } else {
        lemma_index_of_name(s, j);
    }
}

/// The appended entry is what a lookup of its username finds.
pub proof fn lemma_owner_of_name_push_new(s: Seq<NameEntryV>, e: NameEntryV)
    requires
        !has_name(s, e.username),
    ensures
        owner_of_name(s.push(e), e.username) == e.identity,
{
    let t = s.push(e);
    assert(t[s.len() as int] == e);
    let j = index_of_name(t, e.username);
    assert(0 <= j < t.len() && t[j].username == e.username);
    if j < s.len() {
        assert(s[j] == t[j]);
    }
}

/// The username-to-identity index.  Its view is the sequence of entry
/// views, in reservation order.
pub struct UsernameIndex {
    entries: Vec<NameEntry>,
}

impl View for UsernameIndex {
    type V = Seq<NameEntryV>;

    closed spec fn view(&self) -> Seq<NameEntryV> {
        self.entries@.map_values(|e: NameEntry| e@)
    }
}

impl UsernameIndex {
    /// An empty index.
    pub fn new() -> (d: UsernameIndex)
        ensures
            d@ == Seq::<NameEntryV>::empty(),
    {
        let d = UsernameIndex { entries: Vec::new() };
        proof {
            assert(d@ =~= Seq::<NameEntryV>::empty());
        }
        d
    }

    /// The index of the entry carrying `name`, if any.
    fn find(&self, name: &String) -> (r: Option<usize>)
        ensures
            match r {
                Some(i) => i < self@.len() && self@[i as int].username == name@,
                None => !has_name(self@, name@),
            },
    {
        let mut i: usize = 0;
        while i < self.entries.len()
            invariant
                i <= self@.len(),
                self@.len() == self.entries@.len(),
                forall|k: int| 0 <= k < i ==> self@[k].username != name@,
            decreases self@.len() - i,
        {
            if self.entries[i].username == *name {
                return Some(i);
            }
            i = i + 1;
        }
        None
    }

    /// Whether `name` is reserved.  Pure lookup, no side effects.
    pub fn contains(&self, name: &String) -> (r: bool)
        ensures
            r == has_name(self@, name@),
    {
        self.find(name).is_some()
    }

    /// The identity that reserved `name`, if any.  Pure lookup.
    pub fn lookup(&self, name: &String) -> (r: Option<&Vec<u8>>)
        requires
            distinct_names(self@),
        ensures
            match r {
                Some(id) => has_name(self@, name@) && id@ == owner_of_name(self@, name@),
                None => !has_name(self@, name@),
            },
    {
        match self.find(name) {
            None => None,
            Some(i) => {
                proof {
                    lemma_index_of_name(self@, i as int);
                }
                Some(&self.entries[i].identity)
            },
        }
    }

    /// Reserves `name` for `identity`: appends a fresh entry, or overwrites
    /// the existing one.  Callers keep usernames unique by checking
    /// `lookup` first; this index does not itself reject duplicates.
    pub fn reserve(&mut self, name: String, identity: Vec<u8>)
        requires
            distinct_names(old(self)@),
        ensures
            !has_name(old(self)@, name@) ==> final(self)@ == old(self)@.push(
                NameEntryV { username: name@, identity: identity@ },
            ),
            has_name(old(self)@, name@) ==> final(self)@ == old(self)@.update(
                index_of_name(old(self)@, name@),
                NameEntryV { username: name@, identity: identity@ },
            ),
            distinct_names(final(self)@),
    {
        let ghost pre = self@;
        match self.find(&name) {
            None => {
                self.entries.push(NameEntry { username: name, identity });
                proof {
                    assert(final(self)@ =~= pre.push(
                        NameEntryV { username: name@, identity: identity@ },
                    ));
                    assert forall|i: int, j: int|
                        0 <= i < j < final(self)@.len() implies final(self)@[i].username
                        != final(self)@[j].username by {
                        if j >= pre.len() {
                            assert(!has_name(pre, name@));
                        }
                    }
                }
            },
            Some(i) => {
                proof {
                    lemma_index_of_name(pre, i as int);
                }
                let e = &mut self.entries[i];
                e.username = name;
                e.identity = identity;
                proof {
                    assert(final(self)@ =~= pre.update(
                        i as int,
                        NameEntryV { username: name@, identity: identity@ },
                    ));
                    assert forall|a: int, b: int|
                        0 <= a < b < final(self)@.len() implies final(self)@[a].username
                        != final(self)@[b].username by {
                        assert(pre[a].username != pre[b].username);
                    }
                }
            },
        }
    }

    /// Frees `name` again.  No current use case releases a username; the
    /// operation is part of the index's contract for symmetry with
    /// `reserve`.
    pub fn release(&mut self, name: &String)
        requires
            distinct_names(old(self)@),
        ensures
            !has_name(old(self)@, name@) ==> final(self)@ == old(self)@,
            has_name(old(self)@, name@) ==> final(self)@ == old(self)@.remove(
                index_of_name(old(self)@, name@),
            ),
            distinct_names(final(self)@),
    {
        let ghost pre = self@;
        match self.find(name) {
            None => {},
            Some(i) => {
                proof {
                    lemma_index_of_name(pre, i as int);
                }
                self.entries.remove(i);
                proof {
                    assert(final(self)@ =~= pre.remove(i as int));
                    assert forall|a: int, b: int|
                        0 <= a < b < final(self)@.len() implies final(self)@[a].username
                        != final(self)@[b].username by {
                        let pa = if a < i as int { a } else { a + 1 };
                        let pb = if b < i as int { b } else { b + 1 };
                        assert(final(self)@[a] == pre[pa]);
                        assert(final(self)@[b] == pre[pb]);
                        assert(pre[pa].username != pre[pb].username);
                    }
                }
            },
        }
    }
}

} // verus!
