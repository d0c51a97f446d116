//! The input-mode state machine: one unmodified keystroke either switches the
//! mode or applies a mutation to the [`Filter`](crate::filter::Filter).

use vstd::prelude::*;
use vstd::pervasive::VecAdditionalExecFns;
use vstd::pervasive::cloned;
use crate::chars::{weakly_sorted, strictly_sorted, contains_char, insert_char_sorted};
use crate::filter::{Filter, PositionalFilter, WORD_LENGTH, slot_wf};

verus! {

/// The code a key event carries, reduced to what the machine distinguishes.
#[derive(Debug, Clone, Copy, PartialEq, Eq)]
pub enum KeyCode {
    /// A printable character.
    Char(char),
    /// The escape key.
    Esc,
    /// Any other key.
    Other,
}

/// One keystroke: its code and whether any modifier was held.
#[derive(Debug, Clone, Copy, PartialEq, Eq)]
pub struct Key {
    pub code: KeyCode,
    pub has_modifiers: bool,
}

/// How the next letter keystroke will be interpreted.
#[derive(Debug, Clone, Copy, PartialEq, Eq, Structural)]
pub enum InputMode {
    /// In the given slot, the letter must (true) or must not (false) be the
    /// character typed next.
    Positional(usize, bool),
    /// The word must (true) or must not (false) contain the character typed
    /// next.
    Global(bool),
}

impl InputMode {
    /// A positional mode points at a real slot.
    pub open spec fn wf(self) -> bool {
        match self {
            InputMode::Positional(x, _) => x < WORD_LENGTH,
            InputMode::Global(_) => true,
        }
    }
}

/// Lowercase ASCII letter.
pub open spec fn is_lower(c: char) -> bool {
    'a' as u32 <= c as u32 && c as u32 <= 'z' as u32
}

/// Digit selecting a slot.
pub open spec fn is_slot_digit(c: char) -> bool {
    '1' as u32 <= c as u32 && c as u32 <= '5' as u32
}

/// The mode with its flag replaced, keeping its kind.
pub open spec fn with_flag(m: InputMode, flag: bool) -> InputMode {
    match m {
        InputMode::Positional(x, _) => InputMode::Positional(x, flag),
        InputMode::Global(_) => InputMode::Global(flag),
    }
}

/// The mode's current flag.
pub open spec fn flag_of(m: InputMode) -> bool {
    match m {
        InputMode::Positional(_, f) => f,
        InputMode::Global(f) => f,
    }
}

/// The letter a keystroke applies, if it is an unmodified lowercase letter.
pub open spec fn letter_of(key: Key) -> Option<char> {
    match key.code {
        KeyCode::Char(c) => if !key.has_modifiers && is_lower(c) {
            Some(c)
        } else {
            None
        },
        _ => None,
    }
}

/// Whether the keystroke is mapped at all; anything else is reported as
/// invalid input and changes nothing.
pub open spec fn key_valid(key: Key) -> bool {
    &&& !key.has_modifiers
    &&& match key.code {
        KeyCode::Char(c) => c == '+' || c == '-' || is_slot_digit(c) || c == '*' || is_lower(c),
        KeyCode::Esc => true,
        KeyCode::Other => false,
    }
}

/// The mode after one keystroke.
pub open spec fn next_mode(m: InputMode, key: Key) -> InputMode {
    if !key_valid(key) {
        m
    } else {
        match key.code {
            KeyCode::Esc => InputMode::Global(false),
            KeyCode::Char(c) => if c == '+' {
                with_flag(m, true)
            } else if c == '-' {
                with_flag(m, false)
            } else if is_slot_digit(c) {
                InputMode::Positional((c as u32 - '1' as u32) as usize, flag_of(m))
            } else if c == '*' {
                InputMode::Global(false)
            } else {
                m
            },
            KeyCode::Other => m,
        }
    }
}

/// `new_s` is `old_s` with `c` inserted in sorted position; duplicates are
/// kept, so repeating a letter raises its multiplicity.
pub open spec fn occur_extended(old_s: Seq<char>, new_s: Seq<char>, c: char) -> bool {
    &&& weakly_sorted(new_s)
    &&& new_s.to_multiset() == old_s.to_multiset().insert(c)
}

/// `new_s` is `old_s` with `c` inserted in sorted position unless it was
/// already present, in which case nothing changes.
pub open spec fn occur_extended_dedup(old_s: Seq<char>, new_s: Seq<char>, c: char) -> bool {
    if old_s.contains(c) {
        new_s == old_s
    } else {
        occur_extended(old_s, new_s, c)
    }
}

/// The new slot is a `MustNotBe` set extending the old slot's set with `c`:
/// a fresh singleton over an absent or `MustBe` slot, the old set unchanged
/// if it already held `c`, and otherwise the old set with `c` inserted.
pub open spec fn slot_excluded(
    old_slot: Option<PositionalFilter>,
    new_slot: Option<PositionalFilter>,
    c: char,
) -> bool {
    match new_slot {
        Some(PositionalFilter::MustNotBe(nv)) => match old_slot {
            Some(PositionalFilter::MustNotBe(ov)) => if ov@.contains(c) {
                nv@ == ov@
            } else {
                strictly_sorted(nv@) && nv@.to_multiset() == ov@.to_multiset().insert(c)
            },
            _ => nv@ == seq![c],
        },
        _ => false,
    }
}

/// What one letter keystroke does to the filter, by mode.
pub open spec fn letter_mutation(m: InputMode, c: char, f0: Filter, f1: Filter) -> bool {
    match m {
        InputMode::Positional(x, true) => {
            &&& f1.positional@ == f0.positional@.update(
                x as int,
                Some(PositionalFilter::MustBe(c)),
            )
            &&& f1.must_occur@ == f0.must_occur@
            &&& f1.must_not_occur@ == f0.must_not_occur@
        },
        InputMode::Positional(x, false) => {
            &&& f1.positional@.len() == f0.positional@.len()
            &&& forall|j: int|
                0 <= j < f0.positional@.len() && j != x ==> f1.positional@[j] == f0.positional@[j]
            &&& slot_excluded(f0.positional@[x as int], f1.positional@[x as int], c)
            &&& occur_extended_dedup(f0.must_occur@, f1.must_occur@, c)
            &&& f1.must_not_occur@ == f0.must_not_occur@
        },
        InputMode::Global(true) => {
            &&& f1.positional@ == f0.positional@
            &&& occur_extended(f0.must_occur@, f1.must_occur@, c)
            &&& f1.must_not_occur@ == f0.must_not_occur@
        },
        InputMode::Global(false) => {
            &&& f1.positional@ == f0.positional@
            &&& f1.must_occur@ == f0.must_occur@
            &&& occur_extended(f0.must_not_occur@, f1.must_not_occur@, c)
        },
    }
}

/// What one keystroke does to the filter: nothing, unless it is an
/// unmodified lowercase letter, which applies the current mode's mutation.
pub open spec fn filter_mutation(m: InputMode, key: Key, f0: Filter, f1: Filter) -> bool {
    match letter_of(key) {
        None => f1 == f0,
        Some(c) => letter_mutation(m, c, f0, f1),
    }
}

/// Applies one letter keystroke to the filter under the current mode.
fn apply_letter(input_mode: InputMode, c: char, filter: &mut Filter)
    requires
        old(filter).wf(),
        input_mode.wf(),
        is_lower(c),
    ensures
        final(filter).wf(),
        letter_mutation(input_mode, c, *old(filter), *final(filter)),
{
    match input_mode {
        InputMode::Positional(x, true) => {
            filter.positional.set(x, Some(PositionalFilter::MustBe(c)));
            proof {
                assert forall|i: int| 0 <= i < filter.positional@.len()
                    implies slot_wf(#[trigger] filter.positional@[i]) by {
                    if i != x {
                        assert(slot_wf(old(filter).positional@[i]));
                    }
                }
            }
        },
        InputMode::Positional(x, false) => {
            let ghost f0 = *filter;
            let mut nv: Vec<char>;
            let mut had = false;
            match &filter.positional[x] {
                Some(PositionalFilter::MustNotBe(v)) => {
                    nv = v.clone();
                    had = true;
                    proof {
                        assert(slot_wf(filter.positional@[x as int]));
                        assert forall|i: int| 0 <= i < nv@.len() implies nv@[i] == v@[i] by {
                            assert(cloned::<char>(v@[i], nv@[i]));
                        }
                        assert(nv@ =~= v@);
                    }
                },
                _ => {
                    nv = Vec::new();
                },
            }
            if had {
                if !contains_char(&nv, c) {
                    proof {
                        assert(weakly_sorted(nv@)) by {
                            assert forall|i: int, j: int| 0 <= i < j < nv@.len()
                                implies nv@[i] <= nv@[j] by {
                                assert(nv@[i] < nv@[j]);
                            }
                        }
                    }
                    insert_char_sorted(&mut nv, c);
                }
            } else {
                nv.push(c);
                proof {
                    assert(nv@ =~= seq![c]);
                }
            }
            filter.positional.set(x, Some(PositionalFilter::MustNotBe(nv)));
            if !contains_char(&filter.must_occur, c) {
                insert_char_sorted(&mut filter.must_occur, c);
            }
            proof {
                assert forall|i: int| 0 <= i < filter.positional@.len()
                    implies slot_wf(#[trigger] filter.positional@[i]) by {
                    if i != x {
                        assert(slot_wf(f0.positional@[i]));
                    }
                }
            }
        },
        InputMode::Global(true) => {
            insert_char_sorted(&mut filter.must_occur, c);
        },
        InputMode::Global(false) => {
            insert_char_sorted(&mut filter.must_not_occur, c);
        },
    }
}

/// Feeds one keystroke to the state machine. Returns the next mode and
/// whether the keystroke was mapped; an unmapped or modified keystroke
/// changes nothing. `+`/`-` set the mode's flag, a digit selects a slot,
/// `Esc` and `*` reset to `Global(false)`, and a lowercase letter applies
/// the current mode's mutation to the filter.
pub fn process_input(input_mode: InputMode, key: Key, filter: &mut Filter) -> (r: (InputMode, bool))
    requires
        old(filter).wf(),
        input_mode.wf(),
    ensures
        final(filter).wf(),
        r.0 == next_mode(input_mode, key),
        r.0.wf(),
        r.1 == key_valid(key),
        filter_mutation(input_mode, key, *old(filter), *final(filter)),
        key.code == KeyCode::Esc && !key.has_modifiers ==> r.0 == InputMode::Global(false)
            && *final(filter) == *old(filter),
{
    if key.has_modifiers {
        return (input_mode, false);
    }
    match key.code {
        KeyCode::Char(c) => {
            if c == '+' || c == '-' {
                let must = c == '+';
                let m = match input_mode {
                    InputMode::Positional(x, _) => InputMode::Positional(x, must),
                    InputMode::Global(_) => InputMode::Global(must),
                };
                (m, true)
            } else if c as u32 >= '1' as u32 && c as u32 <= '5' as u32 {
                let pos = (c as u32 - '1' as u32) as usize;
                let must = match input_mode {
                    InputMode::Positional(_, f) => f,
                    InputMode::Global(f) => f,
                };
                (InputMode::Positional(pos, must), true)
            } else if c == '*' {
                (InputMode::Global(false), true)
            } else if c as u32 >= 'a' as u32 && c as u32 <= 'z' as u32 {
                apply_letter(input_mode, c, filter);
                (input_mode, true)
            } else {
                (input_mode, false)
            }
        },
        KeyCode::Esc => (InputMode::Global(false), true),
        KeyCode::Other => (input_mode, false),
    }
}

/// Two presses of the same letter while in "must contain" mode are not
/// deduplicated: each raises the letter's required multiplicity by one.
pub proof fn lemma_global_occur_not_deduplicated(
    s0: Seq<char>,
    s1: Seq<char>,
    s2: Seq<char>,
    c: char,
)
    requires
        occur_extended(s0, s1, c),
        occur_extended(s1, s2, c),
    ensures
        s2.to_multiset().count(c) == s0.to_multiset().count(c) + 2,
{
    broadcast use vstd::multiset::group_multiset_axioms;

}

/// The must-occur entry induced by a positional "must not be" press is
/// deduplicated: it puts the letter in the list once, and repeating the
/// identical press leaves the list unchanged.
pub proof fn lemma_induced_occur_deduplicated(s0: Seq<char>, s1: Seq<char>, s2: Seq<char>, c: char)
    requires
        occur_extended_dedup(s0, s1, c),
        occur_extended_dedup(s1, s2, c),
    ensures
        s1.contains(c),
        s2 == s1,
{
    broadcast use vstd::multiset::group_multiset_axioms;

    if !s0.contains(c) {
        s1.to_multiset_ensures();
        assert(s1.to_multiset().count(c) > 0);
    }
}

} // verus!
