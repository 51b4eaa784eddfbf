use word_solver::feedback::LetterType;
use word_solver::game::{Game, GuessError, MAX_GUESSES};
use word_solver::score::score_word;
use word_solver::solver::Solver;
use word_solver::word::Word;

const WORDS: [&str; 20] = [
    "aloft", "float", "zebra", "crane", "slate", "pilot", "grape", "might", "bound", "flock",
    "shiny", "query", "jumbo", "vivid", "waltz", "toxic", "knead", "hydra", "plumb", "fjord",
];

const RHYMES: [&str; 10] = [
    "bills", "dills", "fills", "gills", "hills", "kills", "mills", "pills", "tills", "wills",
];

fn word(text: &str) -> Word {
    let letters: Vec<char> = text.chars().collect();
    Word::from_slice(&letters)
}

#[test]
fn run() {
    let mut solver = Solver::new(Game::with_random_word(&WORDS), &WORDS);
    println!("\nGame solved in {} guesses.", solver.solve().unwrap());
}

#[test]
fn average() {
    let mut averages = Vec::with_capacity(50);
    for _ in 0..50 {
        let mut solver = Solver::new(Game::with_random_word(&WORDS), &WORDS);
        averages.push(solver.solve().unwrap_or_else(|_| {
            println!("FAILED.");
            -i32::from(MAX_GUESSES)
        }))
    }

    let sum: i32 = averages.iter().sum();
    println!("Average guesses: {}", f64::from(sum) / (averages.len() as f64));
}

#[test]
fn a_new_solver_holds_the_whole_dictionary() {
    let solver = Solver::new(Game::new(word("aloft")), &WORDS);
    assert_eq!(solver.candidates(), &WORDS.to_vec());
    assert_eq!(solver.game(), &Game::new(word("aloft")));
}

#[test]
fn the_optimal_word_scores_highest() {
    let mut solver = Solver::new(Game::new(word("aloft")), &WORDS);
    assert_eq!(solver.find_optimal_word(), "slate");
    let ranked = solver.candidates().clone();
    assert_eq!(ranked.len(), WORDS.len());
    assert_eq!(ranked[0], "slate");
    assert_eq!(ranked[1], "crane");
    assert_eq!(ranked[19], "vivid");
    for pair in ranked.windows(2) {
        assert!(score_word(pair[0]) >= score_word(pair[1]));
    }
    for entry in WORDS {
        assert!(ranked.contains(&entry));
    }
    assert_eq!(solver.game().guesses, 0);
}

#[test]
fn the_optimal_word_of_tied_words_is_one_of_them() {
    let mut solver = Solver::new(Game::new(word("aloft")), &["vivid", "float", "aloft", "jumbo"]);
    let best = solver.find_optimal_word();
    assert!(best == "aloft" || best == "float");
    assert_eq!(solver.candidates()[3], "vivid");
    assert_eq!(solver.candidates()[2], "jumbo");
}

#[test]
fn a_round_guesses_and_prunes() {
    let mut solver = Solver::new(Game::new(word("zebra")), &WORDS);
    assert_eq!(solver.guess_and_prune("slate"), Ok(false));
    assert_eq!(solver.candidates(), &vec!["zebra", "knead"]);
    assert_eq!(solver.game().guesses, 1);
    assert!(!solver.game().completed);
    assert_eq!(solver.guess_and_prune("knead"), Ok(true));
    assert_eq!(solver.candidates(), &vec!["zebra"]);
    assert_eq!(solver.game().guesses, 2);
    assert!(!solver.game().completed);
}

#[test]
fn a_round_with_the_secret_completes_the_game() {
    let mut solver = Solver::new(Game::new(word("zebra")), &WORDS);
    assert_eq!(solver.guess_and_prune("zebra"), Ok(true));
    assert_eq!(solver.candidates(), &vec!["zebra"]);
    assert!(solver.game().completed);
    assert_eq!(solver.guess_and_prune("knead"), Err(GuessError::AlreadyCompleted));
    assert_eq!(solver.candidates(), &vec!["zebra"]);
    assert_eq!(solver.game().guesses, 1);
}

#[test]
fn a_refused_round_changes_nothing() {
    let mut solver = Solver::new(Game::new(word("zebra")), &WORDS);
    assert_eq!(solver.guess_and_prune("zeb"), Err(GuessError::WordNotValidLength));
    assert_eq!(solver.guess_and_prune(""), Err(GuessError::WordNotValidLength));
    assert_eq!(solver.guess_and_prune("zebras"), Err(GuessError::WordNotValidLength));
    assert_eq!(
        solver.guess_and_prune("abcdefghijklmnopqrstuvwxyz"),
        Err(GuessError::WordNotValidLength)
    );
    assert_eq!(solver.candidates(), &WORDS.to_vec());
    assert_eq!(solver.game().guesses, 0);
}

#[test]
fn every_secret_of_the_dictionary_is_found() {
    let expected = [
        ("aloft", 2),
        ("float", 2),
        ("zebra", 2),
        ("crane", 2),
        ("slate", 1),
        ("pilot", 1),
        ("grape", 2),
        ("might", 2),
        ("bound", 2),
        ("flock", 2),
        ("shiny", 1),
        ("query", 1),
        ("jumbo", 2),
        ("vivid", 2),
        ("waltz", 1),
        ("toxic", 2),
        ("knead", 2),
        ("hydra", 1),
        ("plumb", 2),
        ("fjord", 2),
    ];
    for (secret, rounds) in expected {
        let mut solver = Solver::new(Game::new(word(secret)), &WORDS);
        assert_eq!(solver.solve(), Ok(rounds));
        assert_eq!(solver.candidates(), &vec![secret]);
        assert_eq!(i32::from(solver.game().guesses), rounds);
        assert_eq!(solver.game().word_vec, word(secret));
    }
}

#[test]
fn the_last_candidate_is_not_guessed() {
    // "slate" leaves "pilot" alone in the pool: the run ends there, and the
    // game has not seen its secret.
    let mut solver = Solver::new(Game::new(word("pilot")), &WORDS);
    assert_eq!(solver.solve(), Ok(1));
    assert_eq!(solver.candidates(), &vec!["pilot"]);
    assert!(!solver.game().completed);

    let mut solver = Solver::new(Game::new(word("slate")), &WORDS);
    assert_eq!(solver.solve(), Ok(1));
    assert!(solver.game().completed);
}

#[test]
fn rhymes_use_up_the_budget() {
    for secret in ["bills", "fills", "kills", "wills"] {
        let mut solver = Solver::new(Game::new(word(secret)), &RHYMES);
        assert_eq!(solver.solve(), Err(GuessError::AllGuessesUsed));
        assert_eq!(solver.game().guesses, MAX_GUESSES);
        assert!(!solver.game().completed);
        let mut left = solver.candidates().clone();
        left.sort();
        assert_eq!(left, vec!["bills", "fills", "kills", "wills"]);
    }
}

#[test]
fn rhymes_are_tried_from_the_best_score_down() {
    let expected =
        [("tills", 1), ("dills", 2), ("gills", 3), ("pills", 4), ("mills", 5), ("hills", 6)];
    for (secret, rounds) in expected {
        let mut solver = Solver::new(Game::new(word(secret)), &RHYMES);
        assert_eq!(solver.solve(), Ok(rounds));
        assert_eq!(solver.candidates(), &vec![secret]);
        assert!(solver.game().completed);
    }
}

#[test]
fn a_single_candidate_is_found_in_one_round() {
    let mut solver = Solver::new(Game::new(word("aloft")), &["aloft"]);
    assert_eq!(solver.solve(), Ok(1));
    assert!(solver.game().completed);
    assert_eq!(solver.game().guesses, 1);
}

#[test]
fn a_completed_game_is_left_alone() {
    let mut game = Game::new(word("aloft"));
    game.guess(&word("aloft")).unwrap();
    let mut solver = Solver::new(game, &WORDS);
    assert_eq!(solver.solve(), Ok(0));
    assert_eq!(solver.game().guesses, 1);
    assert!(solver.game().completed);
    assert_eq!(solver.candidates().len(), WORDS.len());
}

#[test]
fn a_game_in_progress_is_counted_from_where_it_stands() {
    let mut game = Game::new(word("zebra"));
    for _ in 0..4 {
        game.guess(&word("vivid")).unwrap();
    }
    let mut solver = Solver::new(game, &WORDS);
    assert_eq!(solver.solve(), Ok(2));
    assert_eq!(solver.game().guesses, 6);
}

#[test]
fn an_exhausted_game_fails_at_once() {
    let mut game = Game::new(word("zebra"));
    for _ in 0..MAX_GUESSES {
        game.guess(&word("vivid")).unwrap();
    }
    let mut solver = Solver::new(game, &WORDS);
    assert_eq!(solver.solve(), Err(GuessError::AllGuessesUsed));
    assert_eq!(solver.game().guesses, MAX_GUESSES);
    assert_eq!(solver.candidates().len(), WORDS.len());
}

#[test]
fn a_secret_held_twice_is_found_then_recognised() {
    // Two copies of the secret survive every pruning, so the pool never
    // shrinks to one: the next round meets a completed game, and the
    // answer is the number of guesses made before it.
    let mut solver = Solver::new(Game::new(word("aloft")), &["aloft", "aloft"]);
    assert_eq!(solver.solve(), Ok(1));
    assert_eq!(solver.candidates(), &vec!["aloft", "aloft"]);
    assert!(solver.game().completed);
    assert_eq!(solver.game().guesses, 1);
}

#[test]
fn feedback_of_a_round_matches_the_game() {
    let mut game = Game::new(word("aloft"));
    let row = game.guess(&word("float")).unwrap();
    assert_eq!(row.to_vec()[0], LetterType::WrongPlace);
    let mut solver = Solver::new(Game::new(word("aloft")), &WORDS);
    assert_eq!(solver.guess_and_prune("float"), Ok(true));
    assert_eq!(solver.candidates(), &vec!["aloft"]);
}

#[test]
fn a_solver_is_ready_when_its_pool_holds_the_secret() {
    assert!(Solver::new(Game::new(word("aloft")), &WORDS).is_ready());
    assert!(Solver::new(Game::new(word("wills")), &RHYMES).is_ready());
    // The secret is not in the pool.
    assert!(!Solver::new(Game::new(word("wills")), &WORDS).is_ready());
    assert!(!Solver::new(Game::new(word("aloft")), &[]).is_ready());
    // A word of the pool may have another length.
    assert!(Solver::new(Game::new(word("aloft")), &["aloft", "loft"]).is_ready());
    // The game is past its budget.
    let broken = Game { word_vec: word("aloft"), guesses: 7, completed: false };
    assert!(!Solver::new(broken, &WORDS).is_ready());
    let broken = Game { word_vec: word("aloft"), guesses: -1, completed: false };
    assert!(!Solver::new(broken, &WORDS).is_ready());
}

#[test]
fn the_pool_never_grows() {
    for secret in WORDS {
        let mut solver = Solver::new(Game::new(word(secret)), &WORDS);
        let mut size = solver.candidates().len();
        loop {
            let guess = solver.find_optimal_word();
            assert_eq!(solver.candidates().len(), size);
            match solver.guess_and_prune(guess) {
                Ok(single) => {
                    assert!(solver.candidates().len() <= size);
                    assert!(solver.candidates().contains(&secret));
                    size = solver.candidates().len();
                    if single {
                        assert_eq!(size, 1);
                        break;
                    }
                }
                Err(_) => break,
            }
        }
    }
}

#[test]
fn a_pool_within_the_budget_is_always_solved() {
    // Seven candidates: each wrong guess removes itself, so that six
    // guesses always leave one.
    let rhymes = ["bills", "fills", "hills", "kills", "mills", "pills", "wills"];
    let expected = [
        ("pills", 1),
        ("mills", 2),
        ("hills", 3),
        ("bills", 4),
        ("fills", 5),
        ("kills", 6),
        ("wills", 6),
    ];
    for (secret, rounds) in expected {
        let mut solver = Solver::new(Game::new(word(secret)), &rhymes);
        assert_eq!(solver.solve(), Ok(rounds));
        assert_eq!(solver.candidates(), &vec![secret]);
    }
    // With two guesses used, five candidates are still within the budget.
    for secret in ["bills", "fills", "hills", "kills", "wills"] {
        let mut game = Game::new(word(secret));
        game.guess(&word("vivid")).unwrap();
        game.guess(&word("vivid")).unwrap();
        let mut solver = Solver::new(game, &["bills", "fills", "hills", "kills", "wills"]);
        assert!(solver.solve().is_ok());
        assert_eq!(solver.candidates(), &vec![secret]);
    }
}

#[test]
fn the_optimal_word_may_have_any_length() {
    let mut solver = Solver::new(Game::new(word("crane")), &["ab", "slate", "stream", "", "crane"]);
    assert_eq!(solver.find_optimal_word(), "stream");
    assert_eq!(solver.candidates(), &vec!["stream", "slate", "crane", "ab", ""]);
}

#[test]
fn a_best_word_of_another_length_ends_the_run() {
    let mut solver = Solver::new(Game::new(word("crane")), &["slate", "crane", "stream"]);
    assert_eq!(solver.solve(), Err(GuessError::WordNotValidLength));
    assert_eq!(solver.candidates(), &vec!["stream", "slate", "crane"]);
    assert_eq!(solver.game().guesses, 0);
    assert!(!solver.game().completed);
}

#[test]
fn a_word_of_another_length_that_is_pruned_does_no_harm() {
    let mut solver = Solver::new(Game::new(word("crane")), &["slate", "crane", "ab"]);
    assert_eq!(solver.solve(), Ok(1));
    assert_eq!(solver.candidates(), &vec!["crane"]);
    assert_eq!(solver.game().guesses, 1);
}

#[test]
fn a_completed_game_is_recognised_before_a_wrong_length() {
    let mut game = Game::new(word("crane"));
    game.guess(&word("crane")).unwrap();
    let mut solver = Solver::new(game, &["slate", "crane", "stream"]);
    assert_eq!(solver.solve(), Ok(0));
}
