//! Ranking: split the vocabulary into matching common and rare words,
//! common first, vocabulary order kept within each bucket, truncated to the
//! displayed-match count.

use vstd::prelude::*;
use crate::filter::{Filter, WORD_LENGTH};

verus! {

/// A matching entry tagged common.
pub open spec fn common_pred(f: Filter) -> spec_fn((Seq<char>, bool)) -> bool {
    |e: (Seq<char>, bool)| f.matches_spec(e.0) && e.1
}

/// A matching entry tagged rare.
pub open spec fn rare_pred(f: Filter) -> spec_fn((Seq<char>, bool)) -> bool {
    |e: (Seq<char>, bool)| f.matches_spec(e.0) && !e.1
}

/// The displayed list: matching common entries in vocabulary order, then
/// matching rare entries in vocabulary order, cut off at `max`.
pub open spec fn ranked_spec(
    f: Filter,
    entries: Seq<(Seq<char>, bool)>,
    max: int,
) -> Seq<(Seq<char>, bool)> {
    let full = entries.filter(common_pred(f)) + entries.filter(rare_pred(f));
    if max < full.len() {
        full.take(max)
    } else {
        full
    }
}

/// Appending one element to a sequence extends its filtered image by that
/// element exactly when the predicate accepts it.
pub proof fn lemma_filter_push<A>(s: Seq<A>, pred: spec_fn(A) -> bool, x: A)
    ensures
        s.push(x).filter(pred) == s.filter(pred) + if pred(x) {
            seq![x]
        } else {
            Seq::<A>::empty()
        },
{
    reveal_with_fuel(Seq::filter, 3);
    assert(s.push(x) =~= s + seq![x]);
    Seq::filter_distributes_over_add(s, seq![x], pred);
    assert(seq![x].drop_last() =~= Seq::<A>::empty());
    if pred(x) {
        assert(s.push(x).filter(pred) =~= s.filter(pred) + seq![x]);
    } else {
        assert(s.push(x).filter(pred) =~= s.filter(pred) + Seq::<A>::empty());
    }
}

/// At most `max_words` words the filter still admits, matching common words
/// first and matching rare words after them, each bucket in vocabulary
/// order.
pub fn ranked_matches(
    words: &Vec<(String, bool)>,
    filter: &Filter,
    max_words: usize,
) -> (r: Vec<(String, bool)>)
    requires
        filter.wf(),
        forall|i: int|
            0 <= i < words.deep_view().len() ==> (#[trigger] words.deep_view()[i]).0.len()
                == WORD_LENGTH,
    ensures
        r.deep_view() == ranked_spec(*filter, words.deep_view(), max_words as int),
{
    let ghost all = words.deep_view();
    let mut commons: Vec<(String, bool)> = Vec::new();
    let mut rares: Vec<(String, bool)> = Vec::new();
    let n = words.len();
    let mut i: usize = 0;
    while i < n
        invariant
            0 <= i <= n,
            n == words@.len(),
            all == words.deep_view(),
            filter.wf(),
            forall|j: int| 0 <= j < all.len() ==> (#[trigger] all[j]).0.len() == WORD_LENGTH,
            commons.deep_view() == all.take(i as int).filter(common_pred(*filter)),
            rares.deep_view() == all.take(i as int).filter(rare_pred(*filter)),
        decreases n - i,
    {
        let ghost commons0 = commons.deep_view();
        let ghost rares0 = rares.deep_view();
        proof {
            assert(all[i as int] == words@[i as int].deep_view());
            assert(all.take(i as int + 1) =~= all.take(i as int).push(all[i as int]));
            lemma_filter_push(all.take(i as int), common_pred(*filter), all[i as int]);
            lemma_filter_push(all.take(i as int), rare_pred(*filter), all[i as int]);
        }
        let w = &words[i];
        let m = filter.matches(w.0.as_str());
        if m {
            let pair = (w.0.clone(), w.1);
            proof {
                assert(pair.deep_view() == all[i as int]);
            }
            if w.1 {
                commons.push(pair);
                proof {
                    assert(commons.deep_view() =~= commons0.push(all[i as int]));
                    assert(commons.deep_view()
                        =~= all.take(i as int + 1).filter(common_pred(*filter)));
                    assert(rares.deep_view() =~= all.take(i as int + 1).filter(rare_pred(*filter)));
                }
            } else {
                rares.push(pair);
                proof {
                    assert(rares.deep_view() =~= rares0.push(all[i as int]));
                    assert(rares.deep_view() =~= all.take(i as int + 1).filter(rare_pred(*filter)));
                    assert(commons.deep_view()
                        =~= all.take(i as int + 1).filter(common_pred(*filter)));
                }
            }
        } else {
            proof {
                assert(commons.deep_view() =~= all.take(i as int + 1).filter(common_pred(*filter)));
                assert(rares.deep_view() =~= all.take(i as int + 1).filter(rare_pred(*filter)));
            }
        }
        i = i + 1;
    }
    proof {
        assert(all.take(n as int) =~= all);
    }
    let mut result = commons;
    let ghost result0 = result.deep_view();
    let mut tail = rares;
    let ghost tail0 = tail.deep_view();
    result.append(&mut tail);
    proof {
        assert(result.deep_view() =~= result0 + tail0);
    }
    let ghost full = all.filter(common_pred(*filter)) + all.filter(rare_pred(*filter));
    let ghost before_cut = result.deep_view();
    result.truncate(max_words);
    proof {
        if max_words < before_cut.len() {
            assert(result.deep_view() =~= full.take(max_words as int));
        } else {
            assert(result.deep_view() =~= full);
        }
    }
    result
}

} // verus!
