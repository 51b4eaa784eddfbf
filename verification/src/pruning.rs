//! Pruning a pool of candidate words with the feedback a guess received.

use crate::feedback::LetterType;
use crate::game::{feedback, letter_status};
use rayon::iter::{IntoParallelRefIterator, ParallelIterator};
use vstd::prelude::*;

verus! {

/// `word` has `letter` at `position`.
pub open spec fn stands_at(word: Seq<char>, position: int, letter: char) -> bool {
    0 <= position < word.len() && word[position] == letter
}

/// Whether a candidate survives the verdict `status` that `letter` received
/// at `position` of a guess: after `NotInWord` only words without the
/// letter stay, after `RightPlace` only words with the letter at that
/// position, after `WrongPlace` only words with the letter elsewhere and
/// not at that position.
pub open spec fn keeps(word: Seq<char>, letter: char, position: int, status: LetterType) -> bool {
    match status {
        LetterType::NotInWord => !word.contains(letter),
        LetterType::RightPlace => stands_at(word, position, letter),
        LetterType::WrongPlace => word.contains(letter) && !stands_at(word, position, letter),
    }
}

/// The candidates of `pool`, in order, that survive one letter's verdict.
pub open spec fn pruned_by_letter<'a>(
    pool: Seq<&'a str>,
    letter: char,
    position: int,
    status: LetterType,
) -> Seq<&'a str> {
    pool.filter(|word: &str| keeps(word@, letter, position, status))
}

/// The pool after the verdicts on the first `n` letters of `guess` have
/// been applied one after the other, left to right.
pub open spec fn pruned_upto<'a>(
    pool: Seq<&'a str>,
    guess: Seq<char>,
    row: Seq<LetterType>,
    n: nat,
) -> Seq<&'a str>
    decreases n,
{
    if n == 0 {
        pool
    } else {
        pruned_by_letter(
            pruned_upto(pool, guess, row, (n - 1) as nat),
            guess[n - 1],
            n - 1,
            row[n - 1],
        )
    }
}

/// The pool after every verdict of `row` has been applied to it.
pub open spec fn pruned<'a>(pool: Seq<&'a str>, guess: Seq<char>, row: Seq<LetterType>) -> Seq<
    &'a str,
> {
    pruned_upto(pool, guess, row, row.len())
}

/// Decides whether a candidate survives one letter's verdict.
pub fn keeps_word(word: &str, letter: char, position: usize, status: LetterType) -> (kept: bool)
    ensures
        kept == keeps(word@, letter, position as int, status),
{
    let n: usize = word.unicode_len();
    let mut found = false;
    let mut i: usize = 0;
    while i < n
        invariant
            n == word@.len(),
            i <= n,
            found <==> exists|j: int| 0 <= j < i && word@[j] == letter,
        decreases n - i,
    {
        if word.get_char(i) == letter {
            found = true;
        }
        i += 1;
    }
    let here = position < n && word.get_char(position) == letter;
    match status {
        LetterType::NotInWord => !found,
        LetterType::RightPlace => found && here,
        LetterType::WrongPlace => found && !here,
    }
}

/// rayon's `par_iter`, `filter`, `copied` and `collect` into a `Vec`, with
/// [`keeps_word`] as the filter: the words that the filter accepts, in the
/// order in which `words` holds them.
#[verifier::external_body]
pub(crate) fn par_filter<'a>(
    words: &Vec<&'a str>,
    letter: char,
    position: usize,
    status: LetterType,
) -> (kept: Vec<&'a str>)
    ensures
        kept@ == pruned_by_letter(words@, letter, position as int, status),
{
    words.par_iter().filter(|word| keeps_word(word, letter, position, status)).copied().collect()
}

/// Pruning only ever removes candidates.
pub proof fn lemma_pruned_is_subset<'a>(
    pool: Seq<&'a str>,
    guess: Seq<char>,
    row: Seq<LetterType>,
    n: nat,
    word: &'a str,
)
    requires
        pruned_upto(pool, guess, row, n).contains(word),
    ensures
        pool.contains(word),
    decreases n,
{
    if n > 0 {
        let before = pruned_upto(pool, guess, row, (n - 1) as nat);
        before.lemma_filter_contains_rev(
            |w: &str| keeps(w@, guess[n - 1], n - 1, row[n - 1]),
            word,
        );
        lemma_pruned_is_subset(pool, guess, row, (n - 1) as nat, word);
    }
}

/// A word survives every verdict of the feedback that a guess receives
/// when that word is the secret.
pub proof fn lemma_secret_survives_verdict(secret: Seq<char>, guess: Seq<char>, position: int)
    requires
        0 <= position < guess.len(),
    ensures
        keeps(secret, guess[position], position, letter_status(secret, guess, position)),
{
}

/// Pruning is monotonic: a candidate of the pool is never removed by the
/// feedback that a guess received in a game of which that candidate is the
/// secret.
pub proof fn lemma_pruning_keeps_secret<'a>(pool: Seq<&'a str>, secret: &'a str, guess: Seq<char>)
    requires
        pool.contains(secret),
    ensures
        pruned(pool, guess, feedback(secret@, guess)).contains(secret),
{
    lemma_secret_survives_upto(pool, secret, guess, guess.len());
}

/// The secret's candidate survives the verdicts on the first `n` letters
/// of a guess.
proof fn lemma_secret_survives_upto<'a>(
    pool: Seq<&'a str>,
    secret: &'a str,
    guess: Seq<char>,
    n: nat,
)
    requires
        pool.contains(secret),
        n <= guess.len(),
    ensures
        pruned_upto(pool, guess, feedback(secret@, guess), n).contains(secret),
    decreases n,
{
    if n > 0 {
        let row = feedback(secret@, guess);
        let before = pruned_upto(pool, guess, row, (n - 1) as nat);
        lemma_secret_survives_upto(pool, secret, guess, (n - 1) as nat);
        lemma_secret_survives_verdict(secret@, guess, n - 1);
        let i = choose|i: int| 0 <= i < before.len() && before[i] == secret;
        before.lemma_filter_contains(|w: &str| keeps(w@, guess[n - 1], n - 1, row[n - 1]), i);
    }
}

/// Pruning never adds a candidate.
pub proof fn lemma_pruned_len<'a>(
    pool: Seq<&'a str>,
    guess: Seq<char>,
    row: Seq<LetterType>,
    n: nat,
)
    ensures
        pruned_upto(pool, guess, row, n).len() <= pool.len(),
    decreases n,
{
    if n > 0 {
        let before = pruned_upto(pool, guess, row, (n - 1) as nat);
        before.lemma_filter_len(|w: &str| keeps(w@, guess[n - 1], n - 1, row[n - 1]));
        lemma_pruned_len(pool, guess, row, (n - 1) as nat);
    }
}

/// Filtering a sequence keeps each accepted item as often as the sequence
/// holds it, and no other item.
proof fn lemma_filter_counts<A>(items: Seq<A>, accepts: spec_fn(A) -> bool)
    ensures
        items.filter(accepts).to_multiset() == items.to_multiset().filter(accepts),
    decreases items.len(),
{
    broadcast use vstd::multiset::group_multiset_axioms;

    if items.len() == 0 {
        reveal(Seq::filter);
        assert(items.to_multiset() =~= vstd::multiset::Multiset::<A>::empty()) by {
            vstd::seq_lib::to_multiset_len(items);
        }
    } else {
        let rest = items.drop_last();
        let last = items.last();
        assert(items == rest.push(last));
        lemma_filter_counts(rest, accepts);
        rest.lemma_filter_push(last, accepts);
        vstd::seq_lib::to_multiset_build(rest, last);
        if accepts(last) {
            vstd::seq_lib::to_multiset_build(rest.filter(accepts), last);
        }
    }
}

/// Two pools that hold the same words, each as often as the other, still do
/// so after both were pruned alike: the order in which a pool is held does
/// not matter to what pruning leaves.
pub proof fn lemma_pruned_permutation<'a>(
    a: Seq<&'a str>,
    b: Seq<&'a str>,
    guess: Seq<char>,
    row: Seq<LetterType>,
    n: nat,
)
    requires
        a.to_multiset() == b.to_multiset(),
    ensures
        pruned_upto(a, guess, row, n).to_multiset() == pruned_upto(b, guess, row, n).to_multiset(),
    decreases n,
{
    if n > 0 {
        lemma_pruned_permutation(a, b, guess, row, (n - 1) as nat);
        let accepts = |w: &str| keeps(w@, guess[n - 1], n - 1, row[n - 1]);
        lemma_filter_counts(pruned_upto(a, guess, row, (n - 1) as nat), accepts);
        lemma_filter_counts(pruned_upto(b, guess, row, (n - 1) as nat), accepts);
    }
}

/// A candidate that pruning has left agrees with every verdict applied.
pub proof fn lemma_survivors_agree<'a>(
    pool: Seq<&'a str>,
    guess: Seq<char>,
    row: Seq<LetterType>,
    n: nat,
    word: &'a str,
)
    requires
        pruned_upto(pool, guess, row, n).contains(word),
    ensures
        forall|k: int| 0 <= k < n ==> keeps(word@, guess[k], k, #[trigger] row[k]),
    decreases n,
{
    if n > 0 {
        let before = pruned_upto(pool, guess, row, (n - 1) as nat);
        let accepts = |w: &str| keeps(w@, guess[n - 1], n - 1, row[n - 1]);
        let left = before.filter(accepts);
        let i = choose|i: int| 0 <= i < left.len() && left[i] == word;
        before.lemma_filter_pred(accepts, i);
        before.lemma_filter_contains_rev(accepts, word);
        lemma_survivors_agree(pool, guess, row, (n - 1) as nat, word);
    }
}

/// Filtering a sequence that holds an item the filter refuses leaves
/// fewer items than the sequence holds.
proof fn lemma_filter_drops<A>(items: Seq<A>, accepts: spec_fn(A) -> bool, i: int)
    requires
        0 <= i < items.len(),
        !accepts(items[i]),
    ensures
        items.filter(accepts).len() < items.len(),
    decreases items.len(),
{
    let rest = items.drop_last();
    let last = items.last();
    assert(items == rest.push(last));
    rest.lemma_filter_push(last, accepts);
    rest.lemma_filter_len(accepts);
    if i < rest.len() {
        lemma_filter_drops(rest, accepts, i);
    }
}

/// Where pruning has removed a candidate, the pool has become smaller.
pub proof fn lemma_removal_shrinks<'a>(
    pool: Seq<&'a str>,
    guess: Seq<char>,
    row: Seq<LetterType>,
    n: nat,
    word: &'a str,
)
    requires
        pool.contains(word),
        !pruned_upto(pool, guess, row, n).contains(word),
    ensures
        pruned_upto(pool, guess, row, n).len() < pool.len(),
    decreases n,
{
    if n > 0 {
        let before = pruned_upto(pool, guess, row, (n - 1) as nat);
        let accepts = |w: &str| keeps(w@, guess[n - 1], n - 1, row[n - 1]);
        before.lemma_filter_len(accepts);
        if before.contains(word) {
            let i = choose|i: int| 0 <= i < before.len() && before[i] == word;
            if accepts(word) {
                before.lemma_filter_contains(accepts, i);
            }
            lemma_filter_drops(before, accepts, i);
            lemma_pruned_len(pool, guess, row, (n - 1) as nat);
        } else {
            lemma_removal_shrinks(pool, guess, row, (n - 1) as nat, word);
        }
    }
}

/// A guess that is a candidate but not the secret does not survive the
/// feedback on itself: the pool becomes smaller.
pub proof fn lemma_wrong_guess_is_pruned<'a>(
    pool: Seq<&'a str>,
    secret: Seq<char>,
    guess: &'a str,
)
    requires
        pool.contains(guess),
        guess@.len() == secret.len(),
        guess@ != secret,
    ensures
        !pruned(pool, guess@, feedback(secret, guess@)).contains(guess),
        pruned(pool, guess@, feedback(secret, guess@)).len() < pool.len(),
{
    let row = feedback(secret, guess@);
    let left = pruned(pool, guess@, row);
    if left.contains(guess) {
        lemma_survivors_agree(pool, guess@, row, row.len(), guess);
        assert(guess@ =~= secret) by {
            assert forall|k: int| 0 <= k < guess@.len() implies guess@[k] == secret[k] by {
                assert(keeps(guess@, guess@[k], k, row[k]));
            }
        }
    }
    lemma_removal_shrinks(pool, guess@, row, row.len(), guess);
}

} // verus!
