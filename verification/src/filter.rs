//! The constraint data model and its matching predicate: per-slot positional
//! rules plus global occurrence rules, with `matches` deciding whether a
//! candidate word is still admissible.

use vstd::prelude::*;
use vstd::string::StrSliceExecFns;
use crate::chars::{weakly_sorted, strictly_sorted, contains_char, find_char};

verus! {

/// Length of every word the puzzle deals in.
pub const WORD_LENGTH: usize = 5;

/// A rule pinned to one letter slot.
#[derive(Debug, Clone, PartialEq, Eq)]
pub enum PositionalFilter {
    /// The slot's letter is exactly this character.
    MustBe(char),
    /// The slot's letter is none of these characters.
    MustNotBe(Vec<char>),
}

/// The aggregate of positional and occurrence rules defining the currently
/// accepted candidate words.
#[derive(Debug, Clone, PartialEq, Eq)]
pub struct Filter {
    /// One optional rule per letter slot; `None` means unconstrained.
    pub positional: Vec<Option<PositionalFilter>>,
    /// Letters the word must contain, consumed one-for-one; duplicates mean
    /// "at least that many occurrences".
    pub must_occur: Vec<char>,
    /// Letters forbidden at every slot not pinned by a `MustBe` rule.
    pub must_not_occur: Vec<char>,
}

/// What one slot's rule demands of the letter standing there.
pub open spec fn slot_ok(slot: Option<PositionalFilter>, ch: char) -> bool {
    match slot {
        Some(PositionalFilter::MustBe(c)) => ch == c,
        Some(PositionalFilter::MustNotBe(v)) => !v@.contains(ch),
        None => true,
    }
}

/// The positional pass: every slot's rule holds of the word's letter there.
pub open spec fn positional_ok(pos: Seq<Option<PositionalFilter>>, word: Seq<char>) -> bool {
    forall|i: int| 0 <= i < pos.len() ==> slot_ok(#[trigger] pos[i], word[i])
}

/// The occurrence-consumption pass: each entry of `mo` consumes one distinct
/// occurrence in the word, so the word must hold every letter at least as
/// often as `mo` lists it.
pub open spec fn occurrence_ok(mo: Seq<char>, word: Seq<char>) -> bool {
    mo.to_multiset().subset_of(word.to_multiset())
}

/// Whether the slot is pinned by a `MustBe` rule (and so exempt from the
/// must-not-occur check).
pub open spec fn pinned(slot: Option<PositionalFilter>) -> bool {
    match slot {
        Some(PositionalFilter::MustBe(_)) => true,
        _ => false,
    }
}

/// The masked-exclusion pass: no forbidden letter stands at an unpinned slot.
pub open spec fn masked_ok(pos: Seq<Option<PositionalFilter>>, mno: Seq<char>, word: Seq<char>) -> bool {
    forall|i: int| 0 <= i < word.len() && !pinned(#[trigger] pos[i]) ==> !mno.contains(word[i])
}

/// Internal shape of one slot: a `MustNotBe` set is non-empty, sorted and
/// free of duplicates.
pub open spec fn slot_wf(slot: Option<PositionalFilter>) -> bool {
    match slot {
        Some(PositionalFilter::MustNotBe(v)) => strictly_sorted(v@) && v@.len() >= 1,
        _ => true,
    }
}

impl Filter {
    /// Internal invariant: the positional sequence spans the word length,
    /// every `MustNotBe` set is sorted and deduplicated, and the occurrence
    /// lists are sorted.
    pub open spec fn wf(self) -> bool {
        &&& self.positional@.len() == WORD_LENGTH
        &&& forall|i: int| 0 <= i < self.positional@.len() ==> slot_wf(#[trigger] self.positional@[i])
        &&& weakly_sorted(self.must_occur@)
        &&& weakly_sorted(self.must_not_occur@)
    }

    /// No slot is constrained and both occurrence lists are empty.
    pub open spec fn is_empty_spec(self) -> bool {
        &&& forall|i: int| 0 <= i < self.positional@.len() ==> (#[trigger] self.positional@[i]) is None
        &&& self.must_occur@.len() == 0
        &&& self.must_not_occur@.len() == 0
    }

    /// Whether the word passes all three passes.
    pub open spec fn matches_spec(self, word: Seq<char>) -> bool {
        &&& positional_ok(self.positional@, word)
        &&& occurrence_ok(self.must_occur@, word)
        &&& masked_ok(self.positional@, self.must_not_occur@, word)
    }

    /// A fresh, unconstrained filter.
    pub fn new() -> (f: Filter)
        ensures
            f.wf(),
            f.is_empty_spec(),
    {
        let mut positional: Vec<Option<PositionalFilter>> = Vec::new();
        let mut i: usize = 0;
        while i < WORD_LENGTH
            invariant
                0 <= i <= WORD_LENGTH,
                positional@.len() == i,
                forall|j: int| 0 <= j < i ==> (#[trigger] positional@[j]) is None,
            decreases WORD_LENGTH - i,
        {
            positional.push(None);
            i = i + 1;
        }
        Filter { positional, must_occur: Vec::new(), must_not_occur: Vec::new() }
    }

    /// True iff the filter imposes nothing at all.
    pub fn is_empty(&self) -> (r: bool)
        ensures
            r == self.is_empty_spec(),
    {
        let mut i: usize = 0;
        let n = self.positional.len();
        while i < n
            invariant
                0 <= i <= n,
                n == self.positional@.len(),
                forall|j: int| 0 <= j < i ==> (#[trigger] self.positional@[j]) is None,
            decreases n - i,
        {
            if self.positional[i].is_some() {
                return false;
            }
            i = i + 1;
        }
        self.must_occur.len() == 0 && self.must_not_occur.len() == 0
    }

    /// The positional pass of `matches`.
    fn check_positional(&self, word: &str) -> (r: bool)
        requires
            self.positional@.len() == word@.len(),
        ensures
            r == positional_ok(self.positional@, word@),
    {
        let n = self.positional.len();
        let mut i: usize = 0;
        while i < n
            invariant
                0 <= i <= n,
                n == self.positional@.len(),
                word@.len() == n,
                forall|j: int| 0 <= j < i ==> slot_ok(#[trigger] self.positional@[j], word@[j]),
            decreases n - i,
        {
            let ch = word.get_char(i);
            match &self.positional[i] {
                Some(PositionalFilter::MustBe(c)) => {
                    if ch != *c {
                        assert(!slot_ok(self.positional@[i as int], word@[i as int]));
                        return false;
                    }
                }
                Some(PositionalFilter::MustNotBe(v)) => {
                    if contains_char(v, ch) {
                        assert(!slot_ok(self.positional@[i as int], word@[i as int]));
                        return false;
                    }
                }
                None => {}
            }
            i = i + 1;
        }
        true
    }

    /// The occurrence-consumption pass of `matches`: work through a copy of
    /// the word, striking out one occurrence per `must_occur` entry.
    fn check_occurrence(&self, word: &str) -> (r: bool)
        ensures
            r == occurrence_ok(self.must_occur@, word@),
    {
        broadcast use vstd::seq_lib::group_to_multiset_ensures;
        broadcast use vstd::seq_lib::lemma_multiset_commutative;
        broadcast use vstd::multiset::group_multiset_axioms;

        let mut w = str_chars(word);
        let n = self.must_occur.len();
        let mut k: usize = 0;
        while k < n
            invariant
                0 <= k <= n,
                n == self.must_occur@.len(),
                w@.to_multiset().add(self.must_occur@.take(k as int).to_multiset())
                    == word@.to_multiset(),
            decreases n - k,
        {
            let ghost mo = self.must_occur@;
            let ghost w_before = w@;
            let c = self.must_occur[k];
            proof {
                assert(mo.take(k as int + 1) =~= mo.take(k as int).push(c));
            }
            match find_char(&w, c) {
                None => {
                    proof {
                        w_before.to_multiset_ensures();
                        assert(w_before.to_multiset().count(c) == 0);
                        assert(mo =~= mo.take(k as int) + mo.skip(k as int));
                        vstd::seq_lib::lemma_multiset_commutative(
                            mo.take(k as int),
                            mo.skip(k as int),
                        );
                        assert(mo.skip(k as int)[0] == c);
                        assert(mo.skip(k as int).contains(c));
                        mo.skip(k as int).to_multiset_ensures();
                        assert(mo.to_multiset().count(c)
                            >= mo.take(k as int).to_multiset().count(c) + 1);
                        assert(word@.to_multiset().count(c)
                            == mo.take(k as int).to_multiset().count(c));
                        assert(!occurrence_ok(mo, word@));
                    }
                    return false;
                }
                Some(i) => {
                    w.remove(i);
                    proof {
                        w_before.to_multiset_ensures();
                        mo.take(k as int).to_multiset_ensures();
                        assert(w@.to_multiset() =~= w_before.to_multiset().remove(c));
                        assert(w_before[i as int] == c);
                        assert(w_before.contains(c));
                        assert(w_before.to_multiset().count(c) > 0);
                        assert(w@.to_multiset().add(mo.take(k as int + 1).to_multiset())
                            =~= word@.to_multiset());
                    }
                }
            }
            k = k + 1;
        }
        proof {
            assert(self.must_occur@.take(n as int) =~= self.must_occur@);
            assert forall|x: char|
                self.must_occur@.to_multiset().count(x) <= word@.to_multiset().count(x) by {
                assert(word@.to_multiset().count(x)
                    == w@.to_multiset().count(x) + self.must_occur@.to_multiset().count(x));
            }
        }
        true
    }

    /// The masked-exclusion pass of `matches`.
    fn check_masked(&self, word: &str) -> (r: bool)
        requires
            self.positional@.len() == word@.len(),
        ensures
            r == masked_ok(self.positional@, self.must_not_occur@, word@),
    {
        let n = self.positional.len();
        let mut i: usize = 0;
        while i < n
            invariant
                0 <= i <= n,
                n == self.positional@.len(),
                word@.len() == n,
                forall|j: int| 0 <= j < i && !pinned(#[trigger] self.positional@[j])
                    ==> !self.must_not_occur@.contains(word@[j]),
            decreases n - i,
        {
            let is_pinned = match &self.positional[i] {
                Some(PositionalFilter::MustBe(_)) => true,
                _ => false,
            };
            if !is_pinned {
                let ch = word.get_char(i);
                if contains_char(&self.must_not_occur, ch) {
                    assert(!pinned(self.positional@[i as int]));
                    return false;
                }
            }
            i = i + 1;
        }
        true
    }

    /// Whether `word` satisfies every active constraint: each pinned slot
    /// holds its letter, no slot holds a letter its `MustNotBe` set forbids,
    /// the word holds every `must_occur` letter with at least the listed
    /// multiplicity, and no `must_not_occur` letter stands at an unpinned
    /// slot.
    pub fn matches(&self, word: &str) -> (r: bool)
        requires
            self.wf(),
            word@.len() == WORD_LENGTH,
        ensures
            r == self.matches_spec(word@),
    {
        if !self.check_positional(word) {
            return false;
        }
        if !self.check_occurrence(word) {
            return false;
        }
        self.check_masked(word)
    }
}

/// The word's characters as a vector.
fn str_chars(word: &str) -> (r: Vec<char>)
    ensures
        r@ == word@,
{
    let n = word.unicode_len();
    let mut r: Vec<char> = Vec::new();
    let mut i: usize = 0;
    while i < n
        invariant
            0 <= i <= n,
            n == word@.len(),
            r@ == word@.take(i as int),
        decreases n - i,
    {
        let c = word.get_char(i);
        r.push(c);
        proof {
            assert(r@ =~= word@.take(i as int + 1));
        }
        i = i + 1;
    }
    proof {
        assert(r@ =~= word@);
    }
    r
}

/// An empty constraint set accepts every word.
pub proof fn lemma_empty_matches_all(f: Filter, word: Seq<char>)
    requires
        f.is_empty_spec(),
    ensures
        f.matches_spec(word),
{
    broadcast use vstd::seq_lib::group_to_multiset_ensures;

    assert forall|x: char|
        f.must_occur@.to_multiset().count(x) <= word.to_multiset().count(x) by {
        if f.must_occur@.to_multiset().count(x) > 0 {
            assert(f.must_occur@.contains(x));
        }
    }
}

/// A `MustBe` slot rejects every word that differs from it there.
pub proof fn lemma_must_be_rejects(f: Filter, word: Seq<char>, i: int, c: char)
    requires
        0 <= i < f.positional@.len(),
        f.positional@[i] == Some(PositionalFilter::MustBe(c)),
        word.len() == f.positional@.len(),
        word[i] != c,
    ensures
        !f.matches_spec(word),
{
    assert(!slot_ok(f.positional@[i], word[i]));
}

/// On a word that agrees with a `MustBe` slot, that slot imposes nothing
/// further: the positional pass gives the same verdict with the slot cleared.
pub proof fn lemma_must_be_transparent(
    pos: Seq<Option<PositionalFilter>>,
    word: Seq<char>,
    i: int,
    c: char,
)
    requires
        0 <= i < pos.len(),
        pos[i] == Some(PositionalFilter::MustBe(c)),
        word.len() == pos.len(),
        word[i] == c,
    ensures
        positional_ok(pos, word) == positional_ok(pos.update(i, None), word),
{
    let cleared = pos.update(i, None);
    if positional_ok(pos, word) {
        assert forall|j: int| 0 <= j < cleared.len() implies slot_ok(#[trigger] cleared[j], word[j]) by {
            if j != i {
                assert(slot_ok(pos[j], word[j]));
            }
        }
    }
    if positional_ok(cleared, word) {
        assert forall|j: int| 0 <= j < pos.len() implies slot_ok(#[trigger] pos[j], word[j]) by {
            if j != i {
                assert(slot_ok(cleared[j], word[j]));
            }
        }
    }
}

/// Masked exclusion: a letter of `must_not_occur` that stands in the word
/// only at its own pinned `MustBe` slot does not reject the word, as long as
/// the other passes accept it.
pub proof fn lemma_masked_exemption(f: Filter, word: Seq<char>, i: int, c: char)
    requires
        0 <= i < f.positional@.len(),
        word.len() == f.positional@.len(),
        f.positional@[i] == Some(PositionalFilter::MustBe(c)),
        word[i] == c,
        forall|j: int| 0 <= j < word.len() && j != i ==> word[j] != c,
        forall|j: int| 0 <= j < f.must_not_occur@.len() ==> f.must_not_occur@[j] == c,
        positional_ok(f.positional@, word),
        occurrence_ok(f.must_occur@, word),
    ensures
        f.matches_spec(word),
{
    assert forall|j: int| 0 <= j < word.len() && !pinned(#[trigger] f.positional@[j])
        implies !f.must_not_occur@.contains(word[j]) by {
        assert(j != i);
        assert(word[j] != c);
    }
}

} // verus!
