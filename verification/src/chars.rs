//! Small verified helpers on sequences of characters: order predicates,
//! membership and search, and order-preserving insertion.

use vstd::prelude::*;

verus! {

/// The sequence is sorted; equal neighbours are allowed.
pub open spec fn weakly_sorted(s: Seq<char>) -> bool {
    forall|i: int, j: int| 0 <= i < j < s.len() ==> s[i] <= s[j]
}

/// The sequence is sorted and free of duplicates.
pub open spec fn strictly_sorted(s: Seq<char>) -> bool {
    forall|i: int, j: int| 0 <= i < j < s.len() ==> s[i] < s[j]
}

/// Whether `c` occurs in `v`.
pub fn contains_char(v: &Vec<char>, c: char) -> (r: bool)
    ensures
        r == v@.contains(c),
{
    let mut i: usize = 0;
    while i < v.len()
        invariant
            0 <= i <= v@.len(),
            forall|j: int| 0 <= j < i ==> v@[j] != c,
        decreases v@.len() - i,
    {
        if v[i] == c {
            return true;
        }
        i = i + 1;
    }
    false
}

/// The index of the first occurrence of `c` in `v`, if any.
pub fn find_char(v: &Vec<char>, c: char) -> (r: Option<usize>)
    ensures
        match r {
            Some(i) => i < v@.len() && v@[i as int] == c,
            None => !v@.contains(c),
        },
{
    let mut i: usize = 0;
    while i < v.len()
        invariant
            0 <= i <= v@.len(),
            forall|j: int| 0 <= j < i ==> v@[j] != c,
        decreases v@.len() - i,
    {
        if v[i] == c {
            return Some(i);
        }
        i = i + 1;
    }
    None
}

/// Inserts `c` into the sorted vector `v`, keeping it sorted. If `v` was
/// strictly sorted and did not hold `c`, the result is strictly sorted too.
pub fn insert_char_sorted(v: &mut Vec<char>, c: char)
    requires
        weakly_sorted(old(v)@),
    ensures
        weakly_sorted(final(v)@),
        final(v)@.len() == old(v)@.len() + 1,
        final(v)@.to_multiset() == old(v)@.to_multiset().insert(c),
        final(v)@.contains(c),
        strictly_sorted(old(v)@) && !old(v)@.contains(c) ==> strictly_sorted(final(v)@),
{
    broadcast use vstd::seq_lib::to_multiset_insert;
    broadcast use vstd::seq_lib::group_to_multiset_ensures;

    let mut i: usize = 0;
    while i < v.len() && v[i] <= c
        invariant
            0 <= i <= v@.len(),
            forall|j: int| 0 <= j < i ==> v@[j] <= c,
        decreases v@.len() - i,
    {
        i = i + 1;
    }
    let ghost before = v@;
    v.insert(i, c);
    proof {
        assert(v@ == before.insert(i as int, c));
        assert(forall|k: int| 0 <= k < i ==> v@[k] == before[k]);
        assert(v@[i as int] == c);
        assert(forall|k: int| i < k < v@.len() ==> v@[k] == before[k - 1]);
        assert(v@.contains(c)) by {
            assert(v@[i as int] == c);
        }
    }
}

} // verus!
