//! Vocabulary parsing: a line is a valid entry iff it is exactly one tag
//! character followed by a word of the configured length; a `+` tag marks
//! the word as common. Lines of any other length are silently skipped.

use vstd::prelude::*;
use vstd::string::StrSliceExecFns;
use crate::rank::lemma_filter_push;

verus! {

/// A line of the right shape: one tag character plus the word.
pub open spec fn valid_line_pred(word_length: int) -> spec_fn(Seq<char>) -> bool {
    |l: Seq<char>| l.len() == word_length + 1
}

/// The entry a valid line denotes: the word after the tag, and whether the
/// tag marks it common.
pub open spec fn entry_of_line(l: Seq<char>) -> (Seq<char>, bool) {
    (l.skip(1), l[0] == '+')
}

/// Spec-level closure form of [`entry_of_line`].
pub open spec fn entry_fn() -> spec_fn(Seq<char>) -> (Seq<char>, bool) {
    |l: Seq<char>| entry_of_line(l)
}

/// The entries of all valid lines, in order.
pub open spec fn parsed_words(lines: Seq<Seq<char>>, word_length: int) -> Seq<(Seq<char>, bool)> {
    lines.filter(valid_line_pred(word_length)).map_values(entry_fn())
}

/// Parses one vocabulary line: `Some(word, is_common)` iff the line is
/// exactly `word_length + 1` characters, the first being the tag.
pub fn parse_line(line: &str, word_length: usize) -> (r: Option<(String, bool)>)
    requires
        word_length < usize::MAX,
    ensures
        ({
            let valid = line@.len() == word_length + 1;
            match r {
                Some(e) => valid && e.0@ == line@.skip(1) && (e.1 <==> line@[0] == '+'),
                None => !valid,
            }
        }),
{
    let n = line.unicode_len();
    if n != word_length + 1 {
        return None;
    }
    let tag = line.get_char(0);
    let rest = line.substring_char(1, n);
    let word = rest.to_owned();
    proof {
        assert(word@ =~= line@.skip(1));
    }
    Some((word, tag == '+'))
}

/// Parses a whole vocabulary: the entries of the valid lines, in their given
/// order; malformed lines are skipped without error.
pub fn parse_words(lines: &Vec<String>, word_length: usize) -> (r: Vec<(String, bool)>)
    requires
        word_length < usize::MAX,
    ensures
        r.deep_view() == parsed_words(lines.deep_view(), word_length as int),
        forall|i: int|
            0 <= i < r.deep_view().len() ==> (#[trigger] r.deep_view()[i]).0.len() == word_length,
{
    let ghost all = lines.deep_view();
    let ghost wl = word_length as int;
    let mut r: Vec<(String, bool)> = Vec::new();
    let n = lines.len();
    let mut i: usize = 0;
    while i < n
        invariant
            0 <= i <= n,
            n == lines@.len(),
            all == lines.deep_view(),
            word_length < usize::MAX,
            wl == word_length as int,
            r.deep_view() == parsed_words(all.take(i as int), wl),
            forall|j: int|
                0 <= j < r.deep_view().len() ==> (#[trigger] r.deep_view()[j]).0.len()
                    == word_length,
        decreases n - i,
    {
        let ghost r0 = r.deep_view();
        proof {
            assert(all[i as int] == lines@[i as int]@);
            assert(all.take(i as int + 1) =~= all.take(i as int).push(all[i as int]));
            lemma_filter_push(
                all.take(i as int).filter(valid_line_pred(wl)),
                valid_line_pred(wl),
                all[i as int],
            );
            lemma_filter_push(all.take(i as int), valid_line_pred(wl), all[i as int]);
        }
        match parse_line(lines[i].as_str(), word_length) {
            Some(e) => {
                proof {
                    assert(e.deep_view() == entry_of_line(all[i as int]));
                }
                r.push(e);
                proof {
                    assert(r.deep_view() =~= r0.push(entry_of_line(all[i as int])));
                    assert(r.deep_view() =~= parsed_words(all.take(i as int + 1), wl));
                }
            },
            None => {
                proof {
                    assert(all.take(i as int + 1).filter(valid_line_pred(wl))
                        =~= all.take(i as int).filter(valid_line_pred(wl)));
                    assert(r.deep_view() =~= parsed_words(all.take(i as int + 1), wl));
                }
            },
        }
        i = i + 1;
    }
    proof {
        assert(all.take(n as int) =~= all);
    }
    r
}

} // verus!
