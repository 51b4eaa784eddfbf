use word_solver::feedback::{Feedback, LetterType};
use word_solver::game::{Game, GuessError, MAX_GUESSES};
use word_solver::word::{Word, WORD_LENGTH};

fn aloft() -> Word {
    Word::from_slice(&['a', 'l', 'o', 'f', 't'])
}

#[test]
fn correct() {
    let mut game = Game::new(aloft());

    assert_eq!(
        game.guess(&aloft()),
        Ok(Feedback::from_slice(&[
            LetterType::RightPlace,
            LetterType::RightPlace,
            LetterType::RightPlace,
            LetterType::RightPlace,
            LetterType::RightPlace,
        ]))
    )
}

#[test]
fn wrong_place() {
    let mut game = Game::new(aloft());

    assert_eq!(
        game.guess(&Word::from_slice(&['f', 'l', 'o', 'a', 't'])),
        Ok(Feedback::from_slice(&[
            LetterType::WrongPlace,
            LetterType::RightPlace,
            LetterType::RightPlace,
            LetterType::WrongPlace,
            LetterType::RightPlace,
        ]))
    )
}

#[test]
fn not_in_place() {
    let mut game = Game::new(Word::from_slice(&['f', 'f', 'f', 'f', 'a']));

    assert_eq!(
        game.guess(&Word::from_slice(&['z', 'e', 'b', 'r', 'a'])),
        Ok(Feedback::from_slice(&[
            LetterType::NotInWord,
            LetterType::NotInWord,
            LetterType::NotInWord,
            LetterType::NotInWord,
            LetterType::RightPlace
        ]))
    )
}

#[test]
fn error_on_max_guesses() {
    let mut game = Game::new(Word::from_slice(&['f', 'f', 'f', 'f', 'a']));

    for _ in 0..MAX_GUESSES {
        game.guess(&aloft()).unwrap();
    }
    assert_eq!(game.guess(&aloft()), Err(GuessError::AllGuessesUsed))
}

#[test]
fn constants_have_their_values() {
    assert_eq!(WORD_LENGTH, 5);
    assert_eq!(MAX_GUESSES, 6);
}

#[test]
fn new_game_is_fresh() {
    let game = Game::new(aloft());
    assert_eq!(game.word_vec, aloft());
    assert_eq!(game.guesses, 0);
    assert!(!game.completed);
}

#[test]
fn word_keeps_its_letters() {
    let word = Word::from_slice(&['q', 'u', 'i', 'l', 't']);
    assert_eq!(word.len(), 5);
    assert_eq!(word.to_vec(), vec!['q', 'u', 'i', 'l', 't']);
    let long = Word::from_slice(&['a', 'b', 'c', 'd', 'e', 'f', 'g']);
    assert_eq!(long.len(), 7);
    assert_eq!(long.to_vec(), vec!['a', 'b', 'c', 'd', 'e', 'f', 'g']);
    assert_eq!(Word::from_slice(&[]).len(), 0);
}

#[test]
fn feedback_keeps_its_verdicts() {
    let row = Feedback::from_slice(&[LetterType::WrongPlace, LetterType::NotInWord]);
    assert_eq!(row.len(), 2);
    assert_eq!(row.to_vec(), vec![LetterType::WrongPlace, LetterType::NotInWord]);
}

#[test]
fn guessing_the_secret_completes_the_game() {
    let secrets = [
        ['a', 'l', 'o', 'f', 't'],
        ['f', 'f', 'f', 'f', 'a'],
        ['z', 'e', 'b', 'r', 'a'],
        ['l', 'l', 'a', 'm', 'a'],
    ];
    for secret in secrets {
        let mut game = Game::new(Word::from_slice(&secret));
        let row = game.guess(&Word::from_slice(&secret)).unwrap();
        assert_eq!(row.to_vec(), vec![LetterType::RightPlace; 5]);
        assert!(game.completed);
        assert_eq!(game.guesses, 1);
    }
}

#[test]
fn a_miss_is_counted_and_leaves_the_game_open() {
    let mut game = Game::new(aloft());
    let row = game.guess(&Word::from_slice(&['f', 'l', 'o', 'a', 't'])).unwrap();
    assert_eq!(row.len(), 5);
    assert!(!game.completed);
    assert_eq!(game.guesses, 1);
    assert_eq!(game.word_vec, aloft());
}

#[test]
fn guesses_never_exceed_the_budget() {
    let mut game = Game::new(aloft());
    let miss = Word::from_slice(&['f', 'f', 'f', 'f', 'a']);
    for round in 0..10 {
        let answer = game.guess(&miss);
        assert!(game.guesses <= MAX_GUESSES);
        if round < 6 {
            assert!(answer.is_ok());
            assert_eq!(game.guesses, round + 1);
        } else {
            assert_eq!(answer, Err(GuessError::AllGuessesUsed));
            assert_eq!(game.guesses, MAX_GUESSES);
        }
    }
    assert!(!game.completed);
}

#[test]
fn a_completed_game_refuses_everything() {
    let mut game = Game::new(aloft());
    game.guess(&aloft()).unwrap();
    assert_eq!(game.guess(&aloft()), Err(GuessError::AlreadyCompleted));
    assert_eq!(
        game.guess(&Word::from_slice(&['z', 'e', 'b', 'r', 'a'])),
        Err(GuessError::AlreadyCompleted)
    );
    assert_eq!(game.guess(&Word::from_slice(&['a', 'b'])), Err(GuessError::AlreadyCompleted));
    assert_eq!(game.guess(&Word::from_slice(&[])), Err(GuessError::AlreadyCompleted));
    assert_eq!(game.guesses, 1);
    assert!(game.completed);
}

#[test]
fn completing_on_the_last_guess_beats_the_budget() {
    let mut game = Game::new(aloft());
    let miss = Word::from_slice(&['z', 'e', 'b', 'r', 'a']);
    for _ in 0..5 {
        game.guess(&miss).unwrap();
    }
    game.guess(&aloft()).unwrap();
    assert!(game.completed);
    assert_eq!(game.guesses, MAX_GUESSES);
    assert_eq!(game.guess(&miss), Err(GuessError::AlreadyCompleted));
}

#[test]
fn a_wrong_length_is_refused_and_not_counted() {
    let mut game = Game::new(aloft());
    assert_eq!(
        game.guess(&Word::from_slice(&['a', 'l', 'o', 'f'])),
        Err(GuessError::WordNotValidLength)
    );
    assert_eq!(
        game.guess(&Word::from_slice(&['a', 'l', 'o', 'f', 't', 's'])),
        Err(GuessError::WordNotValidLength)
    );
    assert_eq!(game.guess(&Word::from_slice(&[])), Err(GuessError::WordNotValidLength));
    assert_eq!(game.guesses, 0);
    assert!(!game.completed);
    game.guess(&Word::from_slice(&['f', 'l', 'o', 'a', 't'])).unwrap();
    assert_eq!(game.guesses, 1);
}

#[test]
fn an_exhausted_budget_is_reported_before_a_wrong_length() {
    let mut game = Game::new(aloft());
    let miss = Word::from_slice(&['z', 'e', 'b', 'r', 'a']);
    for _ in 0..MAX_GUESSES {
        game.guess(&miss).unwrap();
    }
    assert_eq!(game.guess(&Word::from_slice(&['a'])), Err(GuessError::AllGuessesUsed));
}

#[test]
fn a_repeated_letter_is_judged_at_every_position() {
    // The secret has one `l`; both other `l`s of the guess are still reported.
    let mut game = Game::new(aloft());
    let row = game.guess(&Word::from_slice(&['l', 'l', 'l', 'a', 'a'])).unwrap();
    assert_eq!(
        row.to_vec(),
        vec![
            LetterType::WrongPlace,
            LetterType::RightPlace,
            LetterType::WrongPlace,
            LetterType::WrongPlace,
            LetterType::WrongPlace,
        ]
    );

    let mut game = Game::new(Word::from_slice(&['g', 'r', 'u', 'f', 'f']));
    let row = game.guess(&Word::from_slice(&['f', 'l', 'u', 'f', 'f'])).unwrap();
    assert_eq!(
        row.to_vec(),
        vec![
            LetterType::WrongPlace,
            LetterType::NotInWord,
            LetterType::RightPlace,
            LetterType::RightPlace,
            LetterType::RightPlace,
        ]
    );
}

#[test]
fn a_word_outside_any_list_is_judged_like_any_other() {
    let mut game = Game::new(aloft());
    let row = game.guess(&Word::from_slice(&['x', 'x', 'x', 'x', 'x'])).unwrap();
    assert_eq!(row.to_vec(), vec![LetterType::NotInWord; 5]);
    assert_ne!(GuessError::WordNotInList, GuessError::WordNotValidLength);
}
