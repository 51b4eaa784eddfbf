//! Ranking candidate words by score, best first.

use crate::dictionary::holds_word;
use crate::score::{score_word, word_score};
use rayon::slice::ParallelSliceMut;
use std::cmp::Ordering;
use vstd::prelude::*;

verus! {

/// `guess` spells one of the pool's words, and no word of the pool scores
/// higher.
pub open spec fn best_guess<'a>(pool: Seq<&'a str>, guess: Seq<char>) -> bool {
    &&& holds_word(pool, guess)
    &&& forall|i: int|
        0 <= i < pool.len() ==> word_score((#[trigger] pool[i])@) <= word_score(guess)
}

/// The pool is in order of score, highest first.
pub open spec fn best_first<'a>(pool: Seq<&'a str>) -> bool {
    forall|i: int, j: int|
        0 <= i <= j < pool.len() ==> word_score((#[trigger] pool[i])@) >= word_score(
            (#[trigger] pool[j])@,
        )
}

/// Orders two words for a ranking that puts the higher score first: `Less`
/// where `a` scores higher than `b`, `Greater` where it scores lower.
pub fn compare_scores(a: &str, b: &str) -> (order: Ordering)
    ensures
        word_score(a@) > word_score(b@) ==> order == Ordering::Less,
        word_score(a@) == word_score(b@) ==> order == Ordering::Equal,
        word_score(a@) < word_score(b@) ==> order == Ordering::Greater,
{
    let score_a: i128 = score_word(a);
    let score_b: i128 = score_word(b);
    if score_a > score_b {
        Ordering::Less
    } else if score_a == score_b {
        Ordering::Equal
    } else {
        Ordering::Greater
    }
}

/// rayon's `par_sort_unstable_by` with [`compare_scores`] as the comparator:
/// the words are rearranged in place into the comparator's order, so the
/// same words are held as before, highest score first. The order among
/// words of equal score is left open.
#[verifier::external_body]
pub(crate) fn par_sort_best_first<'a>(words: &mut Vec<&'a str>)
    ensures
        final(words)@.to_multiset() == old(words)@.to_multiset(),
        best_first(final(words)@),
{
    words.par_sort_unstable_by(|a, b| compare_scores(a, b));
}

} // verus!
