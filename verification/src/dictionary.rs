//! The corpus of words: what makes a list of words a corpus, and drawing a
//! word from it at random.

use crate::word::{letter_at, word_len, Word, WORD_LENGTH};
use rand::seq::SliceRandom;
use vstd::prelude::*;

verus! {

/// Every word of the list has [`WORD_LENGTH`] letters.
pub open spec fn all_words<'a>(words: Seq<&'a str>) -> bool {
    forall|i: int| 0 <= i < words.len() ==> (#[trigger] words[i])@.len() == WORD_LENGTH
}

/// One of the list's words spells `letters`.
pub open spec fn holds_word<'a>(words: Seq<&'a str>, letters: Seq<char>) -> bool {
    exists|i: int| 0 <= i < words.len() && (#[trigger] words[i])@ == letters
}

/// Checks that every word of the list has [`WORD_LENGTH`] letters.
pub fn only_words(words: &[&str]) -> (ok: bool)
    ensures
        ok == all_words(words@),
{
    let mut i: usize = 0;
    while i < words.len()
        invariant
            i <= words@.len(),
            forall|j: int| 0 <= j < i ==> (#[trigger] words@[j])@.len() == WORD_LENGTH,
        decreases words@.len() - i,
    {
        if words[i].unicode_len() != WORD_LENGTH {
            return false;
        }
        i += 1;
    }
    true
}

/// Whether `text` spells `word`, letter for letter.
pub fn spells(text: &str, word: &Word) -> (same: bool)
    ensures
        same == (text@ == word@),
{
    let n: usize = text.unicode_len();
    if n != word_len(word) {
        return false;
    }
    let mut i: usize = 0;
    while i < n
        invariant
            n == text@.len(),
            n == word@.len(),
            i <= n,
            forall|j: int| 0 <= j < i ==> text@[j] == word@[j],
        decreases n - i,
    {
        if text.get_char(i) != letter_at(word, i) {
            return false;
        }
        i += 1;
    }
    assert(text@ =~= word@);
    true
}

/// Checks whether one of the list's words spells `word`.
pub fn contains_word(words: &[&str], word: &Word) -> (found: bool)
    ensures
        found == holds_word(words@, word@),
{
    let mut i: usize = 0;
    while i < words.len()
        invariant
            i <= words@.len(),
            forall|j: int| 0 <= j < i ==> (#[trigger] words@[j])@ != word@,
        decreases words@.len() - i,
    {
        if spells(words[i], word) {
            return true;
        }
        i += 1;
    }
    false
}

/// `SliceRandom::choose` with the thread-local generator of
/// `rand::thread_rng`: nothing for an empty slice, else one of the slice's
/// items. Which one is left open.
#[verifier::external_body]
fn choose_word<'a>(words: &[&'a str]) -> (pick: Option<&'a str>)
    ensures
        words@.len() == 0 ==> pick is None,
        words@.len() > 0 ==> pick is Some && words@.contains(pick->0),
{
    let mut rng = rand::thread_rng();
    words.choose(&mut rng).copied()
}

/// One word of the corpus, drawn at random. The corpus must not be empty.
pub fn random_word<'a>(words: &[&'a str]) -> (word: &'a str)
    requires
        words@.len() > 0,
    ensures
        words@.contains(word),
{
    match choose_word(words) {
        Some(word) => word,
        None => words[0],
    }
}

} // verus!
