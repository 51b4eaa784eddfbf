//! The solver: it plays a game to the end by guessing, round after round,
//! the best-scoring word of its pool and pruning the pool with the feedback.

use crate::dictionary::{all_words, contains_word, holds_word};
use crate::feedback::{feedback_len, status_at, Feedback};
use crate::game::{feedback, lemma_guessing_secret_completes, Game, GuessError, MAX_GUESSES};
use crate::pruning::{
    lemma_pruned_is_subset, lemma_pruned_len, lemma_pruned_permutation,
    lemma_pruning_keeps_secret, lemma_wrong_guess_is_pruned, par_filter, pruned, pruned_upto,
};
use crate::ranking::{best_first, best_guess, par_sort_best_first};
use crate::score::word_score;
use crate::word::{letter_at, word_from_str, Word, WORD_LENGTH};
use vstd::prelude::*;
use vstd::slice::slice_to_vec;

verus! {

/// A game and the pool of words that can still be its secret.
pub struct Solver<'a> {
    /// The candidates that the rounds so far have left.
    dictionary: Vec<&'a str>,
    /// The game being solved.
    game: Game,
}

/// Every word of `inner` is a word of `outer`.
pub open spec fn drawn_from<'a>(inner: Seq<&'a str>, outer: Seq<&'a str>) -> bool {
    forall|i: int| 0 <= i < inner.len() ==> outer.contains(#[trigger] inner[i])
}

/// The pool after rounds in which `picks` were guessed in turn against
/// `secret`: each round prunes, with the feedback on its guess, what the
/// round before has left.
pub open spec fn pool_after<'a>(
    pool: Seq<&'a str>,
    secret: Seq<char>,
    picks: Seq<Seq<char>>,
) -> Seq<&'a str>
    decreases picks.len(),
{
    if picks.len() == 0 {
        pool
    } else {
        pruned(
            pool_after(pool, secret, picks.drop_last()),
            picks.last(),
            feedback(secret, picks.last()),
        )
    }
}

/// Round `k` of a run that starts from `pool` and `game` and guesses
/// `picks` in turn was played by the rules: the rounds before it left more
/// or fewer than one candidate, its guess was a best-scoring candidate of
/// what they left, and the game accepted the guess.
pub open spec fn round_played<'a>(
    pool: Seq<&'a str>,
    game: Game,
    picks: Seq<Seq<char>>,
    k: int,
) -> bool {
    let pool_k = pool_after(pool, game.secret(), picks.take(k));
    let game_k = game.after_guesses(picks.take(k));
    &&& best_guess(pool_k, picks[k])
    &&& game_k.refusal(picks[k]) is None
    &&& k > 0 ==> pool_k.len() != 1
}

/// The guesses `picks` have solved the puzzle: they left one candidate,
/// or one of them was the secret.
pub open spec fn run_solved<'a>(pool: Seq<&'a str>, game: Game, picks: Seq<Seq<char>>) -> bool {
    ||| picks.len() > 0 && pool_after(pool, game.secret(), picks).len() == 1
    ||| game.after_guesses(picks).completed
}

/// After the guesses `picks`, a best-scoring candidate of what they left
/// is refused by the game for the reason `e`.
pub open spec fn run_refused<'a>(
    pool: Seq<&'a str>,
    game: Game,
    picks: Seq<Seq<char>>,
    e: GuessError,
) -> bool {
    exists|guess: Seq<char>|
        #[trigger] best_guess(pool_after(pool, game.secret(), picks), guess)
            && game.after_guesses(picks).refusal(guess) == Some(e)
}

/// `picks` are the accepted guesses of a complete run from `pool` and
/// `game` that ends with the pool `last_pool`, up to its order, the game
/// `last_game` and the answer `answer`. The answer is the number of
/// guesses where they solved the puzzle; otherwise it is the reason for
/// which the game refused the next guess.
pub open spec fn is_run<'a>(
    pool: Seq<&'a str>,
    game: Game,
    picks: Seq<Seq<char>>,
    last_pool: Seq<&'a str>,
    last_game: Game,
    answer: Result<i32, GuessError>,
) -> bool {
    &&& forall|k: int| 0 <= k < picks.len() ==> #[trigger] round_played(pool, game, picks, k)
    &&& last_pool.to_multiset() == pool_after(pool, game.secret(), picks).to_multiset()
    &&& last_game == game.after_guesses(picks)
    &&& match answer {
        Ok(count) => count == picks.len() && run_solved(pool, game, picks),
        Err(e) => !run_solved(pool, game, picks) && run_refused(pool, game, picks, e),
    }
}

impl<'a> Solver<'a> {
    /// The pool of candidates, in the order in which it is held.
    pub closed spec fn pool(&self) -> Seq<&'a str> {
        self.dictionary@
    }

    /// The game being solved.
    pub closed spec fn puzzle(&self) -> Game {
        self.game
    }

    /// The game is within its budget, and the secret is one of the
    /// candidates.
    pub open spec fn wf(&self) -> bool {
        &&& self.puzzle().wf()
        &&& holds_word(self.pool(), self.puzzle().secret())
    }

    /// A solver for `game` whose pool is the whole of `dictionary`.
    pub fn new(game: Game, dictionary: &[&'a str]) -> (solver: Solver<'a>)
        ensures
            solver.puzzle() == game,
            solver.pool() == dictionary@,
    {
        Solver { dictionary: slice_to_vec(dictionary), game }
    }

    /// The pool of candidates.
    pub fn candidates(&self) -> (pool: &Vec<&'a str>)
        ensures
            pool@ == self.pool(),
    {
        &self.dictionary
    }

    /// The game being solved.
    pub fn game(&self) -> (game: &Game)
        ensures
            *game == self.puzzle(),
    {
        &self.game
    }

    /// Checks that the solver is fit to play: what [`Solver::wf`] states.
    pub fn is_ready(&self) -> (ready: bool)
        ensures
            ready == self.wf(),
    {
        0 <= self.game.guesses && self.game.guesses <= MAX_GUESSES && contains_word(
            self.dictionary.as_slice(),
            &self.game.word_vec,
        )
    }

    /// Ranks the pool by score, best first, and returns the word that now
    /// stands first: a candidate that no other candidate outscores.
    pub fn find_optimal_word(&mut self) -> (word: &'a str)
        requires
            old(self).pool().len() > 0,
        ensures
            final(self).puzzle() == old(self).puzzle(),
            final(self).pool().to_multiset() == old(self).pool().to_multiset(),
            best_first(final(self).pool()),
            word == final(self).pool()[0],
            old(self).pool().contains(word),
            best_guess(old(self).pool(), word@),
    {
        par_sort_best_first(&mut self.dictionary);
        proof {
            lemma_same_words(self.dictionary@, old(self).dictionary@);
            lemma_first_is_best(self.dictionary@, old(self).dictionary@);
        }
        self.dictionary[0]
    }

    /// Replaces the pool by those of its candidates that agree with the
    /// feedback `row` on `guess`: the verdicts are applied one after the
    /// other, left to right, each to what the one before has left.
    pub fn prune(&mut self, guess: &Word, row: &Feedback)
        requires
            row@.len() <= guess@.len(),
        ensures
            final(self).puzzle() == old(self).puzzle(),
            final(self).pool() == pruned(old(self).pool(), guess@, row@),
    {
        let n: usize = feedback_len(row);
        let mut count: usize = 0;
        while count < n
            invariant
                n == row@.len(),
                n <= guess@.len(),
                count <= n,
                self.game == old(self).game,
                self.dictionary@ == pruned_upto(
                    old(self).dictionary@,
                    guess@,
                    row@,
                    count as nat,
                ),
            decreases n - count,
        {
            let status = status_at(row, count);
            let letter = letter_at(guess, count);
            self.dictionary = par_filter(&self.dictionary, letter, count, status);
            count += 1;
        }
    }

    /// Plays one round with `word` as the guess. Where the game refuses the
    /// guess, nothing changes and the game's reason is returned. Where it
    /// accepts, the pool is pruned with the feedback, and the answer says
    /// whether exactly one candidate is left.
    pub fn guess_and_prune(&mut self, word: &str) -> (result: Result<bool, GuessError>)
        requires
            old(self).puzzle().wf(),
        ensures
            final(self).puzzle() == old(self).puzzle().after_guess(word@),
            match result {
                Ok(single) => {
                    &&& old(self).puzzle().refusal(word@) is None
                    &&& final(self).pool() == pruned(
                        old(self).pool(),
                        word@,
                        feedback(old(self).puzzle().secret(), word@),
                    )
                    &&& single == (final(self).pool().len() == 1)
                },
                Err(e) => {
                    &&& old(self).puzzle().refusal(word@) == Some(e)
                    &&& final(self).pool() == old(self).pool()
                },
            },
    {
        let guess = word_from_str(word);
        match self.game.guess(&guess) {
            Ok(row) => {
                self.prune(&guess, &row);
                Ok(self.dictionary.len() == 1)
            },
            Err(e) => Err(e),
        }
    }

    /// Plays the game to its end. Each round guesses a best-scoring
    /// candidate and prunes the pool with the feedback; the rounds stop
    /// when one candidate is left or the game refuses a guess. The answer
    /// is the number of guesses that the game accepted, or the game's
    /// reason where it refused a guess before the puzzle was solved:
    /// `AllGuessesUsed` where the budget ran out, `WordNotValidLength`
    /// where the best-scoring candidate had another length.
    ///
    /// Which of several best-scoring candidates a round guesses is left
    /// open; the guesses made settle everything else. A wrong guess never
    /// survives its own feedback, so a pool of words of the right length
    /// with at most one candidate more than the game has guesses left is
    /// always solved.
    pub fn solve(&mut self) -> (result: Result<i32, GuessError>)
        requires
            old(self).wf(),
        ensures
            final(self).wf(),
            final(self).puzzle().word_vec == old(self).puzzle().word_vec,
            drawn_from(final(self).pool(), old(self).pool()),
            final(self).pool().len() <= old(self).pool().len(),
            exists|picks: Seq<Seq<char>>|
                is_run(
                    old(self).pool(),
                    old(self).puzzle(),
                    picks,
                    final(self).pool(),
                    final(self).puzzle(),
                    result,
                ),
            match result {
                Ok(count) => {
                    &&& 0 <= count <= MAX_GUESSES
                    &&& count == final(self).puzzle().guesses - old(self).puzzle().guesses
                    &&& final(self).puzzle().completed || final(self).pool().len() == 1
                },
                Err(e) => {
                    &&& !final(self).puzzle().completed
                    &&& e == GuessError::AllGuessesUsed || e == GuessError::WordNotValidLength
                    &&& e == GuessError::AllGuessesUsed <==> final(self).puzzle().guesses
                        == MAX_GUESSES
                    &&& e == GuessError::WordNotValidLength ==> !all_words(final(self).pool())
                },
            },
            all_words(old(self).pool()) ==> result != Err::<i32, GuessError>(
                GuessError::WordNotValidLength,
            ),
            old(self).puzzle().completed ==> result == Ok::<i32, GuessError>(0),
            old(self).puzzle().completed ==> final(self).puzzle() == old(self).puzzle(),
            all_words(old(self).pool()) && old(self).pool().len() == 1
                && !old(self).puzzle().completed && old(self).puzzle().guesses != MAX_GUESSES
                ==> result == Ok::<i32, GuessError>(1),
            all_words(old(self).pool()) && old(self).puzzle().guesses != MAX_GUESSES
                && old(self).pool().len() <= MAX_GUESSES - old(self).puzzle().guesses + 1
                ==> result is Ok,
    {
        let ghost pool = self.dictionary@;
        let ghost game = self.game;
        let ghost secret = self.game.secret();
        let ghost mut picks: Seq<Seq<char>> = Seq::empty();
        let mut count: i32 = 0;
        loop
            invariant
                pool == old(self).dictionary@,
                game == old(self).game,
                secret == game.secret(),
                game.wf(),
                self.wf(),
                self.game.word_vec == game.word_vec,
                drawn_from(self.dictionary@, pool),
                self.dictionary@.len() <= pool.len(),
                count == self.game.guesses - game.guesses,
                count == picks.len(),
                forall|k: int|
                    0 <= k < picks.len() ==> #[trigger] round_played(pool, game, picks, k),
                self.dictionary@.to_multiset() == pool_after(pool, secret, picks).to_multiset(),
                self.game == game.after_guesses(picks),
                count > 0 ==> self.dictionary@.len() != 1,
                count > 0 ==> !game.completed,
                count > 0 && all_words(pool) ==> pool.len() != 1,
                all_words(pool) && !self.game.completed ==> self.dictionary@.len() + count
                    <= pool.len(),
            decreases MAX_GUESSES - self.game.guesses,
        {
            let ghost canonical = pool_after(pool, secret, picks);
            let ghost before = self.dictionary@;
            let word = self.find_optimal_word();
            let ghost ranked = self.dictionary@;
            proof {
                lemma_same_words(ranked, before);
                lemma_same_words(ranked, canonical);
                lemma_same_pool(ranked, before, secret);
                lemma_drawn_through(ranked, before, pool);
                lemma_first_is_best(ranked, canonical);
                if all_words(pool) {
                    lemma_drawn_from_words(ranked, pool);
                }
            }
            match self.guess_and_prune(word) {
                Err(GuessError::AlreadyCompleted) => {
                    assert(is_run(
                        old(self).pool(),
                        old(self).puzzle(),
                        picks,
                        self.pool(),
                        self.puzzle(),
                        Ok::<i32, GuessError>(count),
                    ));
                    return Ok(count);
                },
                Err(e) => {
                    assert(run_refused(old(self).pool(), old(self).puzzle(), picks, e));
                    assert(is_run(
                        old(self).pool(),
                        old(self).puzzle(),
                        picks,
                        self.pool(),
                        self.puzzle(),
                        Err::<i32, GuessError>(e),
                    ));
                    return Err(e);
                },
                Ok(single) => {
                    proof {
                        let row = feedback(secret, word@);
                        lemma_pruned_pool(ranked, secret, word@);
                        if word@ == secret {
                            lemma_guessing_secret_completes(game.after_guesses(picks));
                        } else if all_words(pool) {
                            lemma_wrong_guess_is_pruned(ranked, secret, word);
                        }
                        lemma_drawn_through(self.dictionary@, ranked, pool);
                        lemma_pruned_permutation(ranked, canonical, word@, row, row.len());
                        lemma_same_words(self.dictionary@, pruned(canonical, word@, row));
                        lemma_run_extends(pool, game, picks, word@);
                        picks = picks.push(word@);
                    }
                    count += 1;
                    if single {
                        assert(is_run(
                            old(self).pool(),
                            old(self).puzzle(),
                            picks,
                            self.pool(),
                            self.puzzle(),
                            Ok::<i32, GuessError>(count),
                        ));
                        return Ok(count);
                    }
                },
            }
        }
    }
}

/// The first word of a pool ranked best first is a best guess in every
/// pool that holds the same words.
pub proof fn lemma_first_is_best<'a>(ranked: Seq<&'a str>, pool: Seq<&'a str>)
    requires
        ranked.len() > 0,
        best_first(ranked),
        drawn_from(ranked, pool),
        drawn_from(pool, ranked),
    ensures
        pool.contains(ranked[0]),
        best_guess(pool, ranked[0]@),
{
    let i = choose|i: int| 0 <= i < pool.len() && pool[i] == ranked[0];
    assert(pool[i]@ == ranked[0]@);
    assert forall|j: int| 0 <= j < pool.len() implies word_score((#[trigger] pool[j])@)
        <= word_score(ranked[0]@) by {
        assert(ranked.contains(pool[j]));
        let m = choose|m: int| 0 <= m < ranked.len() && ranked[m] == pool[j];
        assert(word_score(ranked[0]@) >= word_score(ranked[m]@));
    }
}

/// A pool that holds the same words as a pool among which the secret is
/// has the secret among its words too.
pub proof fn lemma_same_pool<'a>(a: Seq<&'a str>, b: Seq<&'a str>, secret: Seq<char>)
    requires
        drawn_from(b, a),
        holds_word(b, secret),
    ensures
        holds_word(a, secret),
{
    let i = choose|i: int| 0 <= i < b.len() && (#[trigger] b[i])@ == secret;
    assert(a.contains(b[i]));
}

/// Pruning a pool that holds the secret with the feedback on a guess
/// leaves a pool that holds the secret, no larger and drawn from the first.
pub proof fn lemma_pruned_pool<'a>(pool: Seq<&'a str>, secret: Seq<char>, guess: Seq<char>)
    requires
        holds_word(pool, secret),
    ensures
        holds_word(pruned(pool, guess, feedback(secret, guess)), secret),
        drawn_from(pruned(pool, guess, feedback(secret, guess)), pool),
        pruned(pool, guess, feedback(secret, guess)).len() <= pool.len(),
{
    let row = feedback(secret, guess);
    let left = pruned(pool, guess, row);
    let i = choose|i: int| 0 <= i < pool.len() && (#[trigger] pool[i])@ == secret;
    lemma_pruning_keeps_secret(pool, pool[i], guess);
    let j = choose|j: int| 0 <= j < left.len() && left[j] == pool[i];
    assert(left[j]@ == secret);
    assert forall|k: int| 0 <= k < left.len() implies pool.contains(#[trigger] left[k]) by {
        assert(left.contains(left[k]));
        lemma_pruned_is_subset(pool, guess, row, row.len(), left[k]);
    }
    lemma_pruned_len(pool, guess, row, row.len());
}

/// A run that was played by the rules so far, and whose next round is
/// played by the rules too, is a run played by the rules one round longer.
pub proof fn lemma_run_extends<'a>(
    pool: Seq<&'a str>,
    game: Game,
    picks: Seq<Seq<char>>,
    guess: Seq<char>,
)
    requires
        forall|k: int| 0 <= k < picks.len() ==> #[trigger] round_played(pool, game, picks, k),
        best_guess(pool_after(pool, game.secret(), picks), guess),
        game.after_guesses(picks).refusal(guess) is None,
        picks.len() > 0 ==> pool_after(pool, game.secret(), picks).len() != 1,
    ensures
        forall|k: int|
            0 <= k < picks.len() + 1 ==> #[trigger] round_played(pool, game, picks.push(guess), k),
        pool_after(pool, game.secret(), picks.push(guess)) == pruned(
            pool_after(pool, game.secret(), picks),
            guess,
            feedback(game.secret(), guess),
        ),
        game.after_guesses(picks.push(guess)) == game.after_guesses(picks).after_guess(guess),
{
    let longer = picks.push(guess);
    assert(longer.drop_last() == picks);
    assert(longer.last() == guess);
    assert forall|k: int| 0 <= k < longer.len() implies #[trigger] round_played(
        pool,
        game,
        longer,
        k,
    ) by {
        assert(longer.take(k) == picks.take(k));
        if k < picks.len() {
            assert(round_played(pool, game, picks, k));
        } else {
            assert(picks.take(k) == picks);
        }
    }
}

/// Being drawn from a pool carries over to the pool that pool is drawn from.
pub proof fn lemma_drawn_through<'a>(a: Seq<&'a str>, b: Seq<&'a str>, c: Seq<&'a str>)
    requires
        drawn_from(a, b),
        drawn_from(b, c),
    ensures
        drawn_from(a, c),
{
    assert forall|i: int| 0 <= i < a.len() implies c.contains(#[trigger] a[i]) by {
        assert(b.contains(a[i]));
        let j = choose|j: int| 0 <= j < b.len() && b[j] == a[i];
        assert(c.contains(b[j]));
    }
}

/// Two pools that hold the same words, each as often as the other, agree
/// on which words they hold.
pub proof fn lemma_same_words<'a>(a: Seq<&'a str>, b: Seq<&'a str>)
    requires
        a.to_multiset() == b.to_multiset(),
    ensures
        a.len() == b.len(),
        drawn_from(a, b),
        drawn_from(b, a),
{
    vstd::seq_lib::to_multiset_len(a);
    vstd::seq_lib::to_multiset_len(b);
    assert forall|i: int| 0 <= i < a.len() implies b.contains(#[trigger] a[i]) by {
        vstd::seq_lib::to_multiset_contains(a, a[i]);
        vstd::seq_lib::to_multiset_contains(b, a[i]);
        assert(a.contains(a[i]));
    }
    assert forall|i: int| 0 <= i < b.len() implies a.contains(#[trigger] b[i]) by {
        vstd::seq_lib::to_multiset_contains(a, b[i]);
        vstd::seq_lib::to_multiset_contains(b, b[i]);
        assert(b.contains(b[i]));
    }
}

/// What holds of a pool's words holds of a pool drawn from it.
pub proof fn lemma_drawn_from_words<'a>(inner: Seq<&'a str>, outer: Seq<&'a str>)
    requires
        drawn_from(inner, outer),
        all_words(outer),
    ensures
        all_words(inner),
{
    assert forall|i: int| 0 <= i < inner.len() implies (#[trigger] inner[i])@.len()
        == WORD_LENGTH by {
        assert(outer.contains(inner[i]));
    }
}

} // verus!
