//! The letter-frequency heuristic by which candidate words are ranked.
//!
//! Weights are whole numbers of hundredths, so that scores are exact: a
//! weight of 1400 stands for a frequency of 14.00.

use vstd::prelude::*;

verus! {

/// What a letter adds to a score when the table no longer has it: because
/// the table never had it, or because the word has used it before.
pub const ABSENT_PENALTY: i32 = -400;

/// The frequency table: the weight of each of the twenty-six lower-case
/// letters, and nothing for any other character.
pub open spec fn letter_frequency(c: char) -> Option<i32> {
    match c {
        'a' => Some(1400i32),
        'b' => Some(200i32),
        'c' => Some(400i32),
        'd' => Some(380i32),
        'e' => Some(1500i32),
        'f' => Some(140i32),
        'g' => Some(300i32),
        'h' => Some(230i32),
        'i' => Some(1000i32),
        'j' => Some(21i32),
        'k' => Some(97i32),
        'l' => Some(530i32),
        'm' => Some(270i32),
        'n' => Some(720i32),
        'o' => Some(850i32),
        'p' => Some(280i32),
        'q' => Some(19i32),
        'r' => Some(730i32),
        's' => Some(870i32),
        't' => Some(670i32),
        'u' => Some(600i32),
        'v' => Some(100i32),
        'w' => Some(91i32),
        'x' => Some(27i32),
        'y' => Some(160i32),
        'z' => Some(44i32),
        _ => None,
    }
}

/// What the letter at position `i` adds to the score of `word`: its weight
/// where the table has the letter and the word has not used it before,
/// the penalty otherwise.
pub open spec fn letter_value(word: Seq<char>, i: int) -> int {
    if word.take(i).contains(word[i]) {
        ABSENT_PENALTY as int
    } else {
        match letter_frequency(word[i]) {
            Some(weight) => weight as int,
            None => ABSENT_PENALTY as int,
        }
    }
}

/// The sum of what the first `n` letters of `word` add to its score.
pub open spec fn score_of_prefix(word: Seq<char>, n: nat) -> int
    decreases n,
{
    if n == 0 {
        0
    } else {
        score_of_prefix(word, (n - 1) as nat) + letter_value(word, n - 1)
    }
}

/// The score of a word: the sum of what each of its letters adds.
pub open spec fn word_score(word: Seq<char>) -> int {
    score_of_prefix(word, word.len())
}

/// Looks a letter up in the frequency table.
pub fn frequency_of(c: char) -> (weight: Option<i32>)
    ensures
        weight == letter_frequency(c),
{
    match c {
        'a' => Some(1400),
        'b' => Some(200),
        'c' => Some(400),
        'd' => Some(380),
        'e' => Some(1500),
        'f' => Some(140),
        'g' => Some(300),
        'h' => Some(230),
        'i' => Some(1000),
        'j' => Some(21),
        'k' => Some(97),
        'l' => Some(530),
        'm' => Some(270),
        'n' => Some(720),
        'o' => Some(850),
        'p' => Some(280),
        'q' => Some(19),
        'r' => Some(730),
        's' => Some(870),
        't' => Some(670),
        'u' => Some(600),
        'v' => Some(100),
        'w' => Some(91),
        'x' => Some(27),
        'y' => Some(160),
        'z' => Some(44),
        _ => None,
    }
}

/// Every weight of the table is positive and at most 1500.
pub proof fn lemma_frequency_bounds(c: char)
    ensures
        letter_frequency(c) matches Some(weight) ==> 0 < weight <= 1500,
{
}

/// Whether `c` is among `taken`.
fn is_taken(taken: &Vec<char>, c: char) -> (found: bool)
    ensures
        found == taken@.contains(c),
{
    let mut i: usize = 0;
    while i < taken.len()
        invariant
            i <= taken.len(),
            forall|j: int| 0 <= j < i ==> taken@[j] != c,
        decreases taken.len() - i,
    {
        if taken[i] == c {
            return true;
        }
        i += 1;
    }
    false
}

/// Scores a text of any length. Its letters are looked up in turn in a
/// working copy of the frequency table, and each letter is taken out of
/// the copy once it has been looked up: a repeated letter earns the
/// penalty. The sum is kept in an `i128`, which no text can overflow.
pub fn score_word(word: &str) -> (score: i128)
    ensures
        score == word_score(word@),
        -400 * word@.len() <= score <= 1500 * word@.len(),
{
    let n: usize = word.unicode_len();
    let mut score: i128 = 0;
    let mut taken: Vec<char> = Vec::new();
    let mut i: usize = 0;
    while i < n
        invariant
            n == word@.len(),
            i <= n,
            taken@ == word@.take(i as int),
            score == score_of_prefix(word@, i as nat),
            -400 * i <= score <= 1500 * i,
        decreases n - i,
    {
        let c = word.get_char(i);
        let value: i32 = if is_taken(&taken, c) {
            ABSENT_PENALTY
        } else {
            match frequency_of(c) {
                Some(weight) => weight,
                None => ABSENT_PENALTY,
            }
        };
        proof {
            lemma_frequency_bounds(c);
        }
        score += value as i128;
        taken.push(c);
        i += 1;
    }
    score
}

/// What a letter adds lies between the penalty and the highest weight.
pub proof fn lemma_letter_value_bounds(word: Seq<char>, i: int)
    ensures
        -400 <= letter_value(word, i) <= 1500,
{
    lemma_frequency_bounds(word[i]);
}

/// The score of an empty text is 0, and the score of a text of `n` letters
/// lies between `n` times the penalty and `n` times the highest weight.
pub proof fn lemma_score_bounds(word: Seq<char>)
    ensures
        word.len() == 0 ==> word_score(word) == 0,
        -400 * word.len() <= word_score(word) <= 1500 * word.len(),
{
    lemma_prefix_bounds(word, word.len());
}

/// The bounds of [`lemma_score_bounds`], for the first `n` letters.
proof fn lemma_prefix_bounds(word: Seq<char>, n: nat)
    ensures
        -400 * n <= score_of_prefix(word, n) <= 1500 * n,
    decreases n,
{
    if n > 0 {
        lemma_prefix_bounds(word, (n - 1) as nat);
        lemma_letter_value_bounds(word, n - 1);
    }
}

/// What the first `n` letters add depends on those letters alone.
pub proof fn lemma_prefix_score_agrees(a: Seq<char>, b: Seq<char>, n: nat)
    requires
        n <= a.len(),
        n <= b.len(),
        a.take(n as int) == b.take(n as int),
    ensures
        score_of_prefix(a, n) == score_of_prefix(b, n),
    decreases n,
{
    if n > 0 {
        let m = n - 1;
        assert(a.take(m) == a.take(n as int).take(m));
        assert(b.take(m) == b.take(n as int).take(m));
        assert(a[m] == a.take(n as int)[m]);
        assert(b[m] == b.take(n as int)[m]);
        lemma_prefix_score_agrees(a, b, m as nat);
    }
}

/// Appending a letter adds to the score what that letter adds in its
/// place, and changes nothing of what the letters before it add.
pub proof fn lemma_score_of_push(word: Seq<char>, c: char)
    ensures
        word_score(word.push(c)) == word_score(word) + letter_value(
            word.push(c),
            word.len() as int,
        ),
{
    let longer = word.push(c);
    assert(longer.take(word.len() as int) == word);
    assert(word.take(word.len() as int) == word);
    lemma_prefix_score_agrees(longer, word, word.len());
}

/// Repeating a letter always lowers the score: appending a letter that
/// the text already has adds the penalty, whatever the letter's weight.
pub proof fn lemma_repeated_letter_lowers_score(word: Seq<char>, c: char)
    requires
        word.contains(c),
    ensures
        word_score(word.push(c)) == word_score(word) + ABSENT_PENALTY,
        word_score(word.push(c)) < word_score(word),
{
    lemma_score_of_push(word, c);
    assert(word.push(c).take(word.len() as int) == word);
}

} // verus!
