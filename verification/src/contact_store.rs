//! The contact-id-to-record table, with its id allocator.
//!
//! Ids come from `allocate_id` alone: they are strictly increasing and never
//! reused, even after a deletion, so an id can never come to denote a second
//! record.  The store is owner-agnostic; who may touch a record is decided
//! elsewhere.

use vstd::prelude::*;

use crate::contact::{Contact, ContactV};

verus! {

/// The mathematical value of a [`ContactStore`]: the records in creation
/// order, and the next id to hand out.
#[verifier::ext_equal]
pub ghost struct ContactStoreV {
    pub records: Seq<ContactV>,
    pub next_id: u64,
}

/// Whether some record of `s` carries `id`.
pub open spec fn has_id(s: Seq<ContactV>, id: u64) -> bool {
    exists|i: int| 0 <= i < s.len() && s[i].id == id
}

/// The index of the record carrying `id`; meaningful when `has_id` holds
/// and ids are distinct.
pub open spec fn index_of_id(s: Seq<ContactV>, id: u64) -> int {
    choose|i: int| 0 <= i < s.len() && s[i].id == id
}

/// The record stored under `id`; meaningful when `has_id` holds.
pub open spec fn record_of(s: Seq<ContactV>, id: u64) -> ContactV {
    s[index_of_id(s, id)]
}

/// No id occurs in two records.
pub open spec fn distinct_ids(s: Seq<ContactV>) -> bool {
    forall|i: int, j: int| 0 <= i < j < s.len() ==> s[i].id != s[j].id
}

/// Every stored id lies below `bound`.
pub open spec fn ids_below(s: Seq<ContactV>, bound: u64) -> bool {
    forall|i: int| 0 <= i < s.len() ==> s[i].id < bound
}

/// A store is well formed when its ids are distinct and below the
/// allocator's next id.
pub open spec fn store_wf(sv: ContactStoreV) -> bool {
    &&& distinct_ids(sv.records)
    &&& ids_below(sv.records, sv.next_id)
}

/// Under distinctness, the record found at `i` is the record `index_of_id`
/// points at.
pub proof fn lemma_index_of_id(s: Seq<ContactV>, i: int)
    requires
        distinct_ids(s),
        0 <= i < s.len(),
    ensures
        index_of_id(s, s[i].id) == i,
{
    let id = s[i].id;
    assert(has_id(s, id));
    let j = index_of_id(s, id);
    assert(0 <= j < s.len() && s[j].id == id);
    if j < i {
        assert(s[j].id != s[i].id);
    } else if i < j {
        assert(s[i].id != s[j].id);
    }
}

/// Appending a record adds exactly its id.
pub proof fn lemma_has_id_push(s: Seq<ContactV>, c: ContactV, x: u64)
    ensures
        has_id(s.push(c), x) <==> (has_id(s, x) || c.id == x),
{
    let t = s.push(c);
    if has_id(s, x) {
        let i = choose|i: int| 0 <= i < s.len() && s[i].id == x;
        assert(t[i] == s[i]);
    }
    if c.id == x {
        assert(t[s.len() as int] == c);
    }
    if has_id(t, x) {
        let i = choose|i: int| 0 <= i < t.len() && t[i].id == x;
        if i < s.len() {
            assert(s[i] == t[i]);
        } else {
            assert(t[i] == c);
        }
    }
}

/// Appending a record with a fresh id leaves old lookups unchanged.
pub proof fn lemma_record_of_push_old(s: Seq<ContactV>, c: ContactV, x: u64)
    requires
        distinct_ids(s),
        has_id(s, x),
        c.id != x,
    ensures
        record_of(s.push(c), x) == record_of(s, x),
{
    let t = s.push(c);
    let i = index_of_id(s, x);
    assert(0 <= i < s.len() && s[i].id == x);
    assert(t[i] == s[i]);
    let j = index_of_id(t, x);
    assert(0 <= j < t.len() && t[j].id == x);
    if j == s.len() {
        assert(t[j] == c);
    } else {
        lemma_index_of_id(s, j);
    }
}

/// The appended record is what a lookup of its id finds.
pub proof fn lemma_record_of_push_new(s: Seq<ContactV>, c: ContactV)
    requires
        !has_id(s, c.id),
    ensures
        record_of(s.push(c), c.id) == c,
{
    let t = s.push(c);
    assert(t[s.len() as int] == c);
    let j = index_of_id(t, c.id);
    assert(0 <= j < t.len() && t[j].id == c.id);
    if j < s.len() {
        assert(s[j] == t[j]);
    }
}

/// Overwriting a record in place (same id) moves no lookup: the changed id
/// reads the new record, every other id the old one.
pub proof fn lemma_record_of_update(s: Seq<ContactV>, i: int, c: ContactV, x: u64)
    requires
        distinct_ids(s),
        0 <= i < s.len(),
        c.id == s[i].id,
        has_id(s, x),
    ensures
        has_id(s.update(i, c), x),
        distinct_ids(s.update(i, c)),
        record_of(s.update(i, c), x) == if x == c.id {
            c
        } else {
            record_of(s, x)
        },
{
    let t = s.update(i, c);
    let j = index_of_id(s, x);
    assert(0 <= j < s.len() && s[j].id == x);
    assert(t[j].id == x);
    assert(has_id(t, x));
    assert(distinct_ids(t));
    lemma_index_of_id(t, j);
    if x == c.id {
        lemma_index_of_id(s, i);
    }
}

/// Updating an id's presence is unchanged by an in-place overwrite with the
/// same id.
pub proof fn lemma_has_id_update(s: Seq<ContactV>, i: int, c: ContactV, x: u64)
    requires
        0 <= i < s.len(),
        c.id == s[i].id,
    ensures
        has_id(s.update(i, c), x) <==> has_id(s, x),
{
    let t = s.update(i, c);
    if has_id(s, x) {
        let j = choose|j: int| 0 <= j < s.len() && s[j].id == x;
        if j == i {
            assert(t[i].id == x);
        } else {
            assert(t[j] == s[j]);
        }
    }
    if has_id(t, x) {
        let j = choose|j: int| 0 <= j < t.len() && t[j].id == x;
        if j == i {
            assert(s[i].id == x);
        } else {
            assert(s[j] == t[j]);
        }
    }
}

/// Removing one record leaves every other id's lookup unchanged.
pub proof fn lemma_record_of_remove(s: Seq<ContactV>, i: int, x: u64)
    requires
        distinct_ids(s),
        0 <= i < s.len(),
        has_id(s, x),
        x != s[i].id,
    ensures
        has_id(s.remove(i), x),
        record_of(s.remove(i), x) == record_of(s, x),
{
    let t = s.remove(i);
    let j = index_of_id(s, x);
    assert(0 <= j < s.len() && s[j].id == x);
    let tj = if j < i { j } else { j - 1 };
    assert(t[tj] == s[j]);
    assert(has_id(t, x));
    let k = index_of_id(t, x);
    assert(0 <= k < t.len() && t[k].id == x);
    let sk = if k < i { k } else { k + 1 };
    assert(t[k] == s[sk]);
    lemma_index_of_id(s, sk);
    lemma_index_of_id(s, j);
}

/// The contact store.
pub struct ContactStore {
    records: Vec<Contact>,
    next_id: u64,
}

impl View for ContactStore {
    type V = ContactStoreV;

    closed spec fn view(&self) -> ContactStoreV {
        ContactStoreV {
            records: self.records@.map_values(|c: Contact| c@),
            next_id: self.next_id,
        }
    }
}

impl ContactStore {
    /// An empty store; the first id it will hand out is 0.
    pub fn new() -> (s: ContactStore)
        ensures
            s@.records == Seq::<ContactV>::empty(),
            s@.next_id == 0,
    {
        let s = ContactStore { records: Vec::new(), next_id: 0 };
        proof {
            assert(s@.records =~= Seq::<ContactV>::empty());
        }
        s
    }

    /// Hands out the next unused id and advances the allocator.
    pub fn allocate_id(&mut self) -> (id: u64)
        requires
            old(self)@.next_id < u64::MAX,
        ensures
            id == old(self)@.next_id,
            final(self)@.next_id == id + 1,
            final(self)@.records == old(self)@.records,
    {
        let id = self.next_id;
        self.next_id = self.next_id + 1;
        id
    }

    /// The index of the record carrying `id`, if any.
    fn find(&self, id: u64) -> (r: Option<usize>)
        ensures
            match r {
                Some(i) => i < self@.records.len() && self@.records[i as int].id == id,
                None => !has_id(self@.records, id),
            },
    {
        let mut i: usize = 0;
        while i < self.records.len()
            invariant
                i <= self@.records.len(),
                self@.records.len() == self.records@.len(),
                forall|k: int| 0 <= k < i ==> self@.records[k].id != id,
            decreases self@.records.len() - i,
        {
            if self.records[i].id == id {
                return Some(i);
            }
            i = i + 1;
        }
        None
    }

    /// Whether a record is stored under `id`.
    pub fn contains(&self, id: u64) -> (r: bool)
        ensures
            r == has_id(self@.records, id),
    {
        self.find(id).is_some()
    }

    /// The record stored under `id`, if any.  Pure lookup.
    pub fn get(&self, id: u64) -> (r: Option<&Contact>)
        requires
            distinct_ids(self@.records),
        ensures
            match r {
                Some(c) => has_id(self@.records, id) && c@ == record_of(self@.records, id),
                None => !has_id(self@.records, id),
            },
    {
        match self.find(id) {
            None => None,
            Some(i) => {
                proof {
                    lemma_index_of_id(self@.records, i as int);
                }
                Some(&self.records[i])
            },
        }
    }

    /// Stores `contact` under its own id: appends a fresh record, or
    /// overwrites the one already carrying that id.
    pub fn put(&mut self, contact: Contact)
        requires
            distinct_ids(old(self)@.records),
        ensures
            final(self)@.next_id == old(self)@.next_id,
            !has_id(old(self)@.records, contact.id) ==> final(self)@.records == old(
                self,
            )@.records.push(contact@),
            has_id(old(self)@.records, contact.id) ==> final(self)@.records == old(
                self,
            )@.records.update(index_of_id(old(self)@.records, contact.id), contact@),
            distinct_ids(final(self)@.records),
    {
        let ghost pre = self@.records;
        match self.find(contact.id) {
            None => {
                let ghost cv = contact@;
                self.records.push(contact);
                proof {
                    assert(final(self)@.records =~= pre.push(cv));
                    assert forall|i: int, j: int|
                        0 <= i < j < final(self)@.records.len() implies final(self)@.records[i].id
                        != final(self)@.records[j].id by {
                        if j >= pre.len() {
                            assert(!has_id(pre, cv.id));
                        }
                    }
                }
            },
            Some(i) => {
                proof {
                    lemma_index_of_id(pre, i as int);
                }
                let ghost cv = contact@;
                let slot = &mut self.records[i];
                *slot = contact;
                proof {
                    assert(final(self)@.records =~= pre.update(i as int, cv));
                    assert forall|a: int, b: int|
                        0 <= a < b < final(self)@.records.len() implies final(self)@.records[a].id
                        != final(self)@.records[b].id by {
                        assert(pre[a].id != pre[b].id);
                        assert(cv.id == pre[i as int].id);
                    }
                }
            },
        }
    }

    /// Removes the record stored under `id`, if any.  Knows nothing of user
    /// references; the cascading cleanup is the directory's job.
    pub fn delete(&mut self, id: u64)
        requires
            distinct_ids(old(self)@.records),
        ensures
            final(self)@.next_id == old(self)@.next_id,
            !has_id(old(self)@.records, id) ==> final(self)@.records == old(self)@.records,
            has_id(old(self)@.records, id) ==> final(self)@.records == old(self)@.records.remove(
                index_of_id(old(self)@.records, id),
            ),
            distinct_ids(final(self)@.records),
            forall|x: u64|
                has_id(final(self)@.records, x) ==> has_id(old(self)@.records, x),
            !has_id(final(self)@.records, id),
    {
        let ghost pre = self@.records;
        match self.find(id) {
            None => {
                proof {
                    assert forall|x: u64| has_id(final(self)@.records, x) implies has_id(
                        pre,
                        x,
                    ) by {}
                }
            },
            Some(i) => {
                proof {
                    lemma_index_of_id(pre, i as int);
                }
                self.records.remove(i);
                proof {
                    assert(final(self)@.records =~= pre.remove(i as int));
                    let post = final(self)@.records;
                    assert forall|a: int, b: int|
                        0 <= a < b < post.len() implies post[a].id != post[b].id by {
                        let pa = if a < i as int { a } else { a + 1 };
                        let pb = if b < i as int { b } else { b + 1 };
                        assert(post[a] == pre[pa]);
                        assert(post[b] == pre[pb]);
                        assert(pre[pa].id != pre[pb].id);
                    }
                    assert forall|x: u64| has_id(post, x) implies has_id(pre, x) by {
                        let a = choose|a: int| 0 <= a < post.len() && post[a].id == x;
                        let pa = if a < i as int { a } else { a + 1 };
                        assert(post[a] == pre[pa]);
                    }
                    assert(!has_id(post, id)) by {
                        if has_id(post, id) {
                            let a = choose|a: int| 0 <= a < post.len() && post[a].id == id;
                            let pa = if a < i as int { a } else { a + 1 };
                            assert(post[a] == pre[pa]);
                            assert(pre[pa].id != pre[i as int].id);
                        }
                    }
                }
            },
        }
    }

    /// The id `allocate_id` will hand out next.  Ids only grow.
    pub fn next_id(&self) -> (id: u64)
        ensures
            id == self@.next_id,
    {
        self.next_id
    }

    /// How many records the store holds.  Diagnostics only: ids come from
    /// `allocate_id`, never from this count.
    pub fn len(&self) -> (n: usize)
        ensures
            n == self@.records.len(),
    {
        self.records.len()
    }
}

} // verus!
