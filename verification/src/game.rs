//! The game: one secret word, a budget of guesses, and feedback per guess.

use crate::dictionary::random_word;
use crate::feedback::{feedback_push, feedback_with_capacity, Feedback, LetterType};
use crate::word::{contains_letter, letter_at, word_from_str, word_len, Word, WORD_LENGTH};
use vstd::prelude::*;

verus! {

/// Number of guesses a game accepts.
pub const MAX_GUESSES: i8 = 6;

/// Why a guess was refused.
#[derive(PartialEq, Eq, Debug, Clone, Copy, Structural)]
pub enum GuessError {
    /// The guess does not have [`WORD_LENGTH`] letters.
    WordNotValidLength,
    /// The guess is not a word of the corpus. The game itself never gives
    /// this answer: whoever holds a corpus may.
    WordNotInList,
    /// All [`MAX_GUESSES`] guesses have been used.
    AllGuessesUsed,
    /// The secret has been found already.
    AlreadyCompleted,
}

/// One puzzle: the secret, the number of guesses accepted so far, and
/// whether one of them was the secret.
#[derive(PartialEq, Debug)]
pub struct Game {
    /// The secret.
    pub word_vec: Word,
    /// The number of guesses accepted so far.
    pub guesses: i8,
    /// Whether an accepted guess had every letter in its place.
    pub completed: bool,
}

/// The verdict on letter `i` of `guess`, judged against `secret`. A letter
/// that occurs in the secret elsewhere is `WrongPlace` however often the
/// guess repeats it.
pub open spec fn letter_status(secret: Seq<char>, guess: Seq<char>, i: int) -> LetterType {
    if i < secret.len() && guess[i] == secret[i] {
        LetterType::RightPlace
    } else if secret.contains(guess[i]) {
        LetterType::WrongPlace
    } else {
        LetterType::NotInWord
    }
}

/// The feedback row for `guess`, judged against `secret`: one verdict per
/// letter of the guess.
pub open spec fn feedback(secret: Seq<char>, guess: Seq<char>) -> Seq<LetterType> {
    Seq::new(guess.len(), |i: int| letter_status(secret, guess, i))
}

/// Every verdict of the row is `RightPlace`.
pub open spec fn all_right_place(row: Seq<LetterType>) -> bool {
    forall|i: int| 0 <= i < row.len() ==> row[i] == LetterType::RightPlace
}

impl Game {
    /// The secret's letters.
    pub open spec fn secret(&self) -> Seq<char> {
        self.word_vec@
    }

    /// The count of accepted guesses is within the budget.
    pub open spec fn wf(&self) -> bool {
        0 <= self.guesses <= MAX_GUESSES
    }

    /// The reason for which the game refuses `guess`, if it does. A finished
    /// game refuses first, an exhausted budget second, a wrong length last.
    pub open spec fn refusal(&self, guess: Seq<char>) -> Option<GuessError> {
        if self.completed {
            Some(GuessError::AlreadyCompleted)
        } else if self.guesses == MAX_GUESSES {
            Some(GuessError::AllGuessesUsed)
        } else if guess.len() != WORD_LENGTH {
            Some(GuessError::WordNotValidLength)
        } else {
            None
        }
    }

    /// The game as `guess` leaves it: unchanged where the guess is refused,
    /// else with one more guess counted, and completed if every letter was
    /// in its place.
    pub open spec fn after_guess(self, guess: Seq<char>) -> Game {
        if self.refusal(guess) is Some {
            self
        } else {
            Game {
                word_vec: self.word_vec,
                guesses: (self.guesses + 1) as i8,
                completed: all_right_place(feedback(self.secret(), guess)),
            }
        }
    }

    /// The game after each of `guesses` was submitted in turn.
    pub open spec fn after_guesses(self, guesses: Seq<Seq<char>>) -> Game
        decreases guesses.len(),
    {
        if guesses.len() == 0 {
            self
        } else {
            self.after_guesses(guesses.drop_last()).after_guess(guesses.last())
        }
    }

    /// A fresh game on the given secret.
    pub fn new(word_vec: Word) -> (game: Game)
        ensures
            game.word_vec == word_vec,
            game.guesses == 0,
            !game.completed,
            game.wf(),
    {
        Game { word_vec, guesses: 0, completed: false }
    }

    /// A fresh game on a secret drawn at random from `words`, which must
    /// hold at least one word.
    pub fn with_random_word(words: &[&str]) -> (game: Game)
        requires
            words@.len() > 0,
        ensures
            exists|i: int| 0 <= i < words@.len() && game.secret() == (#[trigger] words@[i])@,
            game.guesses == 0,
            !game.completed,
            game.wf(),
    {
        let word = random_word(words);
        Game::new(word_from_str(word))
    }

    /// Judges one guess. A refused guess changes nothing; an accepted one is
    /// counted, answered with its feedback row, and completes the game if
    /// every letter is in its place.
    pub fn guess(&mut self, word_vec: &Word) -> (result: Result<Feedback, GuessError>)
        requires
            old(self).wf(),
        ensures
            final(self).wf(),
            *final(self) == old(self).after_guess(word_vec@),
            match result {
                Ok(row) => {
                    &&& old(self).refusal(word_vec@) is None
                    &&& row@ == feedback(old(self).secret(), word_vec@)
                    &&& row@.len() == WORD_LENGTH
                },
                Err(e) => old(self).refusal(word_vec@) == Some(e),
            },
    {
        if self.completed {
            return Err(GuessError::AlreadyCompleted);
        }
        if self.guesses == MAX_GUESSES {
            return Err(GuessError::AllGuessesUsed);
        }
        if word_len(word_vec) != WORD_LENGTH {
            return Err(GuessError::WordNotValidLength);
        }
        let ghost secret = self.word_vec@;
        let ghost expected = feedback(secret, word_vec@);
        let secret_len: usize = word_len(&self.word_vec);
        let mut result = feedback_with_capacity(WORD_LENGTH);
        let mut correct_letter_count: usize = 0;
        let mut count: usize = 0;
        while count < WORD_LENGTH
            invariant
                count <= WORD_LENGTH,
                word_vec@.len() == WORD_LENGTH,
                secret == self.word_vec@,
                secret_len == secret.len(),
                expected == feedback(secret, word_vec@),
                result@ == expected.take(count as int),
                correct_letter_count <= count,
                correct_letter_count == count <==> all_right_place(result@),
            decreases WORD_LENGTH - count,
        {
            let letter = letter_at(word_vec, count);
            let status = if count < secret_len && letter == letter_at(&self.word_vec, count) {
                correct_letter_count += 1;
                LetterType::RightPlace
            } else if contains_letter(&self.word_vec, letter) {
                LetterType::WrongPlace
            } else {
                LetterType::NotInWord
            };
            let ghost before = result@;
            feedback_push(&mut result, status);
            assert(expected.take(count + 1) == expected.take(count as int).push(
                expected[count as int],
            ));
            assert(all_right_place(result@) <==> all_right_place(before) && status
                == LetterType::RightPlace) by {
                if all_right_place(result@) {
                    assert forall|i: int| 0 <= i < before.len() implies before[i]
                        == LetterType::RightPlace by {
                        assert(result@[i] == before[i]);
                    }
                    assert(result@[count as int] == status);
                }
            }
            count += 1;
        }
        assert(expected.take(WORD_LENGTH as int) == expected);
        if correct_letter_count == WORD_LENGTH {
            self.completed = true;
        }
        self.guesses += 1;
        Ok(result)
    }
}

/// Guessing the secret itself, in a game that still accepts guesses, is
/// answered with `RightPlace` at every position and completes the game.
pub proof fn lemma_guessing_secret_completes(game: Game)
    requires
        game.secret().len() == WORD_LENGTH,
        !game.completed,
        game.guesses != MAX_GUESSES,
    ensures
        game.refusal(game.secret()) is None,
        feedback(game.secret(), game.secret()) == Seq::new(
            WORD_LENGTH as nat,
            |i: int| LetterType::RightPlace,
        ),
        game.after_guess(game.secret()).completed,
{
    let secret = game.secret();
    assert(feedback(secret, secret) =~= Seq::new(
        WORD_LENGTH as nat,
        |i: int| LetterType::RightPlace,
    ));
}

/// Whatever is submitted to a game within its budget, and however often,
/// the count of accepted guesses stays within the budget.
pub proof fn lemma_guesses_within_budget(game: Game, guesses: Seq<Seq<char>>)
    requires
        game.wf(),
    ensures
        game.after_guesses(guesses).wf(),
        game.after_guesses(guesses).guesses <= MAX_GUESSES,
        game.after_guesses(guesses).word_vec == game.word_vec,
    decreases guesses.len(),
{
    if guesses.len() > 0 {
        lemma_guesses_within_budget(game, guesses.drop_last());
    }
}

/// Once the budget is used up without the secret being found, every
/// further guess is refused with `AllGuessesUsed` and changes nothing.
pub proof fn lemma_exhausted_budget_refuses(game: Game, guess: Seq<char>)
    requires
        game.guesses == MAX_GUESSES,
        !game.completed,
    ensures
        game.refusal(guess) == Some(GuessError::AllGuessesUsed),
        game.after_guess(guess) == game,
{
}

/// In a fresh game, after `MAX_GUESSES` guesses that were all accepted and
/// none of which was the secret, the next guess is refused with
/// `AllGuessesUsed`, whatever it is.
pub proof fn lemma_guess_beyond_budget_refused(
    game: Game,
    guesses: Seq<Seq<char>>,
    next: Seq<char>,
)
    requires
        game.guesses == 0,
        !game.completed,
        guesses.len() == MAX_GUESSES,
        forall|k: int|
            0 <= k < guesses.len() ==> (#[trigger] game.after_guesses(guesses.take(k))).refusal(
                guesses[k],
            ) is None,
        !game.after_guesses(guesses).completed,
    ensures
        game.after_guesses(guesses).refusal(next) == Some(GuessError::AllGuessesUsed),
{
    lemma_accepted_guesses_are_counted(game, guesses, guesses.len() as int);
    assert(guesses.take(guesses.len() as int) == guesses);
}

/// In a fresh game, as long as every guess is accepted, the count of
/// accepted guesses is the number of guesses submitted.
proof fn lemma_accepted_guesses_are_counted(game: Game, guesses: Seq<Seq<char>>, n: int)
    requires
        game.guesses == 0,
        0 <= n <= guesses.len() <= MAX_GUESSES,
        forall|k: int|
            0 <= k < guesses.len() ==> (#[trigger] game.after_guesses(guesses.take(k))).refusal(
                guesses[k],
            ) is None,
    ensures
        game.after_guesses(guesses.take(n)).guesses == n,
    decreases n,
{
    if n > 0 {
        lemma_accepted_guesses_are_counted(game, guesses, n - 1);
        assert(guesses.take(n).drop_last() == guesses.take(n - 1));
    }
}

/// A completed game refuses every guess with `AlreadyCompleted`, whatever
/// the guess holds, and is left unchanged.
pub proof fn lemma_completed_game_refuses(game: Game, guess: Seq<char>)
    requires
        game.completed,
    ensures
        game.refusal(guess) == Some(GuessError::AlreadyCompleted),
        game.after_guess(guess) == game,
{
}

/// Completion is final: whatever is submitted to a completed game, and
/// however often, the game stays as it is.
pub proof fn lemma_completed_game_stays(game: Game, guesses: Seq<Seq<char>>)
    requires
        game.completed,
    ensures
        game.after_guesses(guesses) == game,
    decreases guesses.len(),
{
    if guesses.len() > 0 {
        lemma_completed_game_stays(game, guesses.drop_last());
    }
}

/// A guess of the wrong length never changes the game, and so never counts
/// against the budget; a game that still accepts guesses refuses it with
/// `WordNotValidLength`.
pub proof fn lemma_wrong_length_refused(game: Game, guess: Seq<char>)
    requires
        guess.len() != WORD_LENGTH,
    ensures
        game.after_guess(guess) == game,
        game.refusal(guess) is Some,
        !game.completed && game.guesses != MAX_GUESSES ==> game.refusal(guess) == Some(
            GuessError::WordNotValidLength,
        ),
{
}

} // verus!
