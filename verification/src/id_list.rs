//! Operations on lists of contact ids.
//!
//! Owned and shared contact lists are sequences of `u64` ids.  This module
//! gives the executable membership test and removal used by the directory,
//! together with the spec-level removal function and its algebra.

use vstd::prelude::*;
use vstd::seq_lib::lemma_seq_contains_after_push;

verus! {

/// Holds when no id occurs twice in `s`.
pub open spec fn no_dups(s: Seq<u64>) -> bool {
    forall|i: int, j: int| 0 <= i < j < s.len() ==> s[i] != s[j]
}

/// `s` with every occurrence of `x` removed, order of the rest kept.
pub open spec fn remove_all(s: Seq<u64>, x: u64) -> Seq<u64>
    decreases s.len(),
{
    if s.len() == 0 {
        s
    } else if s.last() == x {
        remove_all(s.drop_last(), x)
    } else {
        remove_all(s.drop_last(), x).push(s.last())
    }
}

/// Membership in `remove_all(s, x)`: everything but `x` survives.
pub proof fn lemma_remove_all_contains(s: Seq<u64>, x: u64, y: u64)
    ensures
        remove_all(s, x).contains(y) <==> (s.contains(y) && y != x),
    decreases s.len(),
{
    if s.len() > 0 {
        lemma_remove_all_contains(s.drop_last(), x, y);
        assert(s =~= s.drop_last().push(s.last()));
        lemma_seq_contains_after_push(s.drop_last(), s.last(), y);
        if s.last() != x {
            lemma_seq_contains_after_push(remove_all(s.drop_last(), x), s.last(), y);
        }
    }
}

/// Removing an id that never occurs changes nothing.
pub proof fn lemma_remove_all_absent(s: Seq<u64>, x: u64)
    requires
        !s.contains(x),
    ensures
        remove_all(s, x) == s,
    decreases s.len(),
{
    if s.len() > 0 {
        assert(s =~= s.drop_last().push(s.last()));
        lemma_seq_contains_after_push(s.drop_last(), s.last(), x);
        lemma_remove_all_absent(s.drop_last(), x);
        assert(remove_all(s, x) =~= s);
    }
}

/// Removing the id just appended undoes the append.
pub proof fn lemma_remove_all_push_same(s: Seq<u64>, x: u64)
    ensures
        remove_all(s.push(x), x) == remove_all(s, x),
{
    assert(s.push(x).drop_last() =~= s);
    assert(s.push(x).last() == x);
}

/// Appending a fresh id keeps a duplicate-free list duplicate-free.
pub proof fn lemma_no_dups_push(s: Seq<u64>, e: u64)
    requires
        no_dups(s),
        !s.contains(e),
    ensures
        no_dups(s.push(e)),
{
    assert forall|i: int, j: int| 0 <= i < j < s.push(e).len() implies s.push(e)[i] != s.push(e)[j] by {
        if j == s.len() {
            assert(s[i] == s.push(e)[i]);
        }
    }
}

/// Removal keeps a duplicate-free list duplicate-free.
pub proof fn lemma_remove_all_no_dups(s: Seq<u64>, x: u64)
    requires
        no_dups(s),
    ensures
        no_dups(remove_all(s, x)),
    decreases s.len(),
{
    if s.len() > 0 {
        assert(no_dups(s.drop_last())) by {
            assert forall|i: int, j: int|
                0 <= i < j < s.drop_last().len() implies s.drop_last()[i] != s.drop_last()[j] by {
                assert(s[i] == s.drop_last()[i]);
                assert(s[j] == s.drop_last()[j]);
            }
        }
        lemma_remove_all_no_dups(s.drop_last(), x);
        if s.last() != x {
            assert(!s.drop_last().contains(s.last())) by {
                if s.drop_last().contains(s.last()) {
                    let i = choose|i: int|
                        0 <= i < s.drop_last().len() && s.drop_last()[i] == s.last();
                    assert(s[i] == s[s.len() - 1]);
                }
            }
            lemma_remove_all_contains(s.drop_last(), x, s.last());
            lemma_no_dups_push(remove_all(s.drop_last(), x), s.last());
        }
    }
}

/// The step a front-to-back scan takes: removing from one more element.
pub proof fn lemma_remove_all_take_succ(s: Seq<u64>, x: u64, i: int)
    requires
        0 <= i < s.len(),
    ensures
        remove_all(s.take(i + 1), x) == if s[i] == x {
            remove_all(s.take(i), x)
        } else {
            remove_all(s.take(i), x).push(s[i])
        },
{
    assert(s.take(i + 1).drop_last() =~= s.take(i));
    assert(s.take(i + 1).last() == s[i]);
}

/// Whether `x` occurs in `ids`.
pub fn contains_id(ids: &Vec<u64>, x: u64) -> (r: bool)
    ensures
        r == ids@.contains(x),
{
    let mut i: usize = 0;
    while i < ids.len()
        invariant
            i <= ids@.len(),
            forall|k: int| 0 <= k < i ==> ids@[k] != x,
        decreases ids@.len() - i,
    {
        if ids[i] == x {
            assert(ids@[i as int] == x);
            return true;
        }
        i = i + 1;
    }
    false
}

/// A copy of `ids` with every occurrence of `x` removed.
pub fn removed_ids(ids: &Vec<u64>, x: u64) -> (out: Vec<u64>)
    ensures
        out@ == remove_all(ids@, x),
{
    let mut out: Vec<u64> = Vec::new();
    let mut i: usize = 0;
    while i < ids.len()
        invariant
            i <= ids@.len(),
            out@ == remove_all(ids@.take(i as int), x),
        decreases ids@.len() - i,
    {
        proof {
            lemma_remove_all_take_succ(ids@, x, i as int);
        }
        if ids[i] != x {
            out.push(ids[i]);
        }
        i = i + 1;
    }
    proof {
        assert(ids@.take(ids@.len() as int) =~= ids@);
    }
    out
}

} // verus!
